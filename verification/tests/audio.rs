use std::sync::Arc;

use wie::audio::{
    convert_smaf_events, sort_by_time, Audio, AudioCommand, AudioError, AudioEventData, AudioSequence,
    SmafEvent, TimedAudioEvent, WaveDynamics,
};
use wie::playback::{AudioCommandSender, LibretroAudioSink};

fn recording() -> Audio<LibretroAudioSink> {
    Audio::new(LibretroAudioSink::new(AudioCommandSender::new()))
}

fn unity() -> WaveDynamics {
    WaveDynamics { velocity: 127, volume: 127, expression: 127, pan: None }
}

#[test]
fn converts_smaf_events_to_timed_transport() {
    let sequence = convert_smaf_events(vec![
        (5, SmafEvent::MidiProgramChange { channel: 2, program: 7 }),
        (10, SmafEvent::MidiPitchBend { channel: 3, value: 0x1234 }),
        (15, SmafEvent::End),
    ]);

    assert_eq!(
        sequence,
        AudioSequence {
            duration: 15,
            events: vec![
                TimedAudioEvent { time: 5, data: AudioEventData::Midi(vec![0xc2, 7]) },
                TimedAudioEvent { time: 10, data: AudioEventData::Midi(vec![0xe3, 0x34, 0x24]) },
            ],
        }
    );
}

#[test]
fn keeps_embedded_smaf_as_lazy_events_instead_of_a_song_sized_wave() {
    let sequence = convert_smaf_events(vec![
        (
            12,
            SmafEvent::Wave {
                channels: 1,
                sampling_rate: 8_000,
                data: vec![1, 2, 3],
                dynamics: unity(),
            },
        ),
        (20, SmafEvent::End),
    ]);

    let AudioEventData::Smaf { sampling_rate, events } = &sequence.events[0].data else {
        panic!("expected lazy SMAF event sequence");
    };
    assert_eq!(*sampling_rate, 24_000);
    assert!(matches!(events.as_slice(), [(12, SmafEvent::Wave { .. })]));
    assert!(!sequence.events.iter().any(|event| matches!(&event.data, AudioEventData::Wave { .. })));
}

#[test]
fn replay_stops_previous_playback_before_starting_again() {
    let mut audio = recording();
    let handle = audio.load_smaf(Vec::new()).unwrap();

    audio.play(handle, false).unwrap();
    audio.play(handle, true).unwrap();

    let commands = audio.sink_mut().take();
    let AudioCommand::Play { sequence: first_sequence, repeat: false, .. } = &commands[0] else {
        panic!("expected initial play command");
    };
    assert_eq!(commands[1], AudioCommand::Stop { handle });
    let AudioCommand::Play { sequence: second_sequence, repeat: true, .. } = &commands[2] else {
        panic!("expected replay command");
    };
    assert!(Arc::ptr_eq(first_sequence, second_sequence));
}

#[test]
fn close_stops_playback_and_removes_the_handle() {
    let mut audio = recording();
    let handle = audio.load_smaf(Vec::new()).unwrap();

    audio.play(handle, false).unwrap();
    audio.close(handle).unwrap();

    assert_eq!(audio.sink_mut().take()[1], AudioCommand::Stop { handle });
    assert!(audio.play(handle, false).is_err());
}

#[test]
fn unknown_handles_are_refused() {
    let mut audio = recording();
    assert_eq!(audio.play(7, false), Err(AudioError::InvalidHandle));
    assert_eq!(audio.close(7), Err(AudioError::InvalidHandle));
    audio.stop(7);
    assert!(audio.sink_mut().take().is_empty());
}

#[test]
fn shutdown_stops_all_that_plays() {
    let mut audio = recording();
    let first = audio.load_smaf(Vec::new()).unwrap();
    let second = audio.load_smaf(Vec::new()).unwrap();
    assert_ne!(first, second);
    audio.play(second, false).unwrap();
    audio.play(first, false).unwrap();
    audio.sink_mut().take();

    audio.shutdown();

    let stops = vec![AudioCommand::Stop { handle: first }, AudioCommand::Stop { handle: second }];
    assert_eq!(audio.sink_mut().take(), stops);
}

#[test]
fn every_midi_event_has_its_message() {
    let sequence = convert_smaf_events(vec![
        (0, SmafEvent::MidiNoteOn { channel: 1, note: 60, velocity: 100 }),
        (1, SmafEvent::MidiNoteOff { channel: 1, note: 60, velocity: 0 }),
        (2, SmafEvent::MidiControlChange { channel: 4, control: 7, value: 90 }),
        (3, SmafEvent::MidiSysEx(vec![0xf0, 1, 0xf7])),
    ]);
    let messages: Vec<&AudioEventData> = sequence.events.iter().map(|event| &event.data).collect();
    assert_eq!(
        messages,
        vec![
            &AudioEventData::Midi(vec![0x91, 60, 100]),
            &AudioEventData::Midi(vec![0x81, 60, 0]),
            &AudioEventData::Midi(vec![0xb4, 7, 90]),
            &AudioEventData::Midi(vec![0xf0, 1, 0xf7]),
        ]
    );
    assert_eq!(sequence.duration, 3);
}

#[test]
fn sorting_is_stable() {
    let at = |time: u64, mark: u8| TimedAudioEvent { time, data: AudioEventData::Midi(vec![mark]) };
    let sorted = sort_by_time(vec![at(5, 1), at(2, 2), at(5, 3), at(2, 4)]);
    assert_eq!(sorted, vec![at(2, 2), at(2, 4), at(5, 1), at(5, 3)]);
}
