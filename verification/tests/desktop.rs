use wie::content::Loadable;
use wie::keys::KeyCode;
use wie::pressed::Event;
use wie::start::{
    drain_commands, file_kind, fold_sample, is_virtual_midi_synth_port, run_mode, select_midi_output_port,
    select_midi_output_port_by_name, start, EmulatorCommand, FileKind, RunMode, Runtime, StartError,
};

fn names(list: &[&str]) -> Vec<String> {
    list.iter().map(|name| (*name).to_owned()).collect()
}

const NOTHING: Loadable = Loadable { ktf: false, lgt: false, skt: false };

#[test]
fn midi_output_prefers_virtual_midi_synth() {
    let ports = names(&["Microsoft GS Wavetable Synth", "VirtualMIDISynth #1", "External MIDI"]);

    assert_eq!(select_midi_output_port_by_name(&ports), Some(1));
}

#[test]
fn midi_output_falls_back_to_first_system_port() {
    let ports = names(&["Microsoft GS Wavetable Synth", "External MIDI"]);

    assert_eq!(select_midi_output_port_by_name(&ports), Some(0));
}

#[test]
fn midi_output_returns_none_without_ports() {
    let ports: [String; 0] = [];

    assert_eq!(select_midi_output_port_by_name(&ports), None);
}

#[test]
fn a_requested_port_is_used_where_there_is_one() {
    let ports = names(&["A", "my virtualMIDIsynth", "C"]);
    assert_eq!(select_midi_output_port(&ports, Some(2)), Some(2));
    assert_eq!(select_midi_output_port(&ports, Some(3)), Some(1));
    assert_eq!(select_midi_output_port(&ports, None), Some(1));
    assert!(is_virtual_midi_synth_port("VIRTUALMIDISYNTH"));
    assert!(!is_virtual_midi_synth_port("virtual midi synth"));
}

#[test]
fn files_are_known_by_their_names() {
    assert!(matches!(file_kind("/g/a.zip"), Ok(FileKind::Zip)));
    match file_kind("/g/a.jad") {
        Ok(FileKind::Jad { jar_path, jar_name }) => {
            assert_eq!(jar_path, "/g/a.jar");
            assert_eq!(jar_name, "a.jar");
        }
        _ => panic!("not a description"),
    }
    match file_kind("/g.jar/b.jar.jar") {
        Ok(FileKind::Jar { name, title }) => {
            assert_eq!(name, "b.jar.jar");
            assert_eq!(title, "b");
        }
        _ => panic!("not a JAR"),
    }
    match file_kind("xgame.jar") {
        Ok(FileKind::Jar { name, title }) => {
            assert_eq!(name, "game.jar");
            assert_eq!(title, "game");
        }
        _ => panic!("not a JAR"),
    }
    assert!(matches!(file_kind("a.exe"), Err(StartError::UnknownFile)));
    assert_eq!(StartError::UnknownFile.message(), "Unknown file format");
}

#[test]
fn runtimes_are_chosen_for_files() {
    let runtime = |file, loadable| start(file, loadable).map(|plan| plan.runtime);
    let skt = Loadable { skt: true, ..NOTHING };
    assert_eq!(runtime("/a.zip", skt), Ok(Runtime::Skt));
    assert_eq!(runtime("/a.zip", NOTHING), Err(StartError::UnknownArchive));
    assert_eq!(runtime("/a.jar", NOTHING), Ok(Runtime::J2me));
    assert_eq!(runtime("/a.jar", Loadable { ktf: true, ..skt }), Ok(Runtime::Ktf));
    assert_eq!(runtime("/a.jad", Loadable { lgt: true, ..NOTHING }), Ok(Runtime::J2me));
    assert_eq!(runtime("/a", skt), Err(StartError::UnknownFile));
}

#[test]
fn list_midi_devices_does_not_require_filename() {
    assert!(matches!(run_mode(None, false, None, true), Ok(RunMode::ListMidiDevices)));
}

#[test]
fn normal_run_requires_filename() {
    assert!(run_mode(None, false, None, false).is_err());
}

#[test]
fn parses_midi_device_with_filename() {
    match run_mode(Some("game.jar".to_owned()), false, Some(1), false) {
        Ok(RunMode::Run { filename, midi_device, .. }) => {
            assert_eq!(filename, "game.jar");
            assert_eq!(midi_device, Some(1));
        }
        _ => panic!("not a run"),
    }
}

#[test]
fn a_run_needs_a_file() {
    assert!(matches!(run_mode(None, false, None, true), Ok(RunMode::ListMidiDevices)));
    assert_eq!(run_mode(None, false, None, false).err(), Some("filename is required"));
    match run_mode(Some("game.jar".to_owned()), true, Some(1), false) {
        Ok(RunMode::Run { filename, enable_gdbserver, midi_device }) => {
            assert_eq!(filename, "game.jar");
            assert!(enable_gdbserver);
            assert_eq!(midi_device, Some(1));
        }
        _ => panic!("not a run"),
    }
}

#[test]
fn events_before_and_behind_a_shutdown_are_handled() {
    let commands = [
        EmulatorCommand::Event(Event::Redraw),
        EmulatorCommand::Shutdown,
        EmulatorCommand::Event(Event::Keydown(KeyCode::OK)),
    ];
    assert_eq!(drain_commands(&commands), (vec![Event::Redraw, Event::Keydown(KeyCode::OK)], true));
    assert_eq!(drain_commands(&commands[..1]), (vec![Event::Redraw], false));
}

#[test]
fn samples_are_folded_outermost_first() {
    assert_eq!(fold_sample(&[0x10, 0xabcdef01], 7), "0xabcdef01;0x10 7");
    assert_eq!(fold_sample(&[0], 120), "0x0 120");
    assert_eq!(fold_sample(&[], 1), " 1");
}
