use wie::option_list::{
    disable_fastforward, frontend_locale, into_array, is_sf2_path, legacy_sound_font_variable,
    legacy_variables, register_core_options, sound_font_options, v1_definitions, v2_categories,
    v2_definitions, CoreOptionValue, DirectoryEntry, Locale, OptionCall,
};
use wie::options::{
    core_options_updated, read_core_options, requested_sound_font, CoreOptions, CoreVariables,
    RuntimeOption,
};

fn variables() -> CoreVariables {
    CoreVariables {
        resolution: None,
        runtime: None,
        midi: None,
        midi_volume: None,
        midi_soundfont: None,
    }
}

fn entry(name: &str, is_file: bool) -> DirectoryEntry {
    DirectoryEntry { name: name.to_owned(), is_file }
}

fn values(slots: &[Option<CoreOptionValue>]) -> Vec<&str> {
    slots.iter().flatten().map(|slot| slot.value.as_str()).collect()
}

#[test]
fn register_environment_disables_fastforward_toggle() {
    let fastforward = disable_fastforward();

    assert_eq!(fastforward.ratio as f32, -1.0);
    assert!(!fastforward.fastforward);
    assert!(!fastforward.notification);
    assert!(fastforward.inhibit_toggle);
}

#[test]
fn sound_font_options_reads_sorted_sf2_files() {
    let options = sound_font_options(vec![
        entry("zeta.sf2", true),
        entry("Alpha.SF2", true),
        entry("ignore.txt", true),
    ]);

    assert_eq!(options, vec!["Alpha.SF2", "zeta.sf2"]);
}

#[test]
fn sound_fonts_are_files_with_the_right_name() {
    assert!(is_sf2_path("a.sf2"));
    assert!(is_sf2_path("a.b.Sf2"));
    assert!(!is_sf2_path(".sf2"));
    assert!(!is_sf2_path("sf2"));
    assert!(!is_sf2_path("a.sf2x"));
    assert!(!is_sf2_path("a.sf2.bak"));
    let options = sound_font_options(vec![
        entry("dir.sf2", false),
        entry("b.sf2", true),
        entry("B.sf2", true),
        entry("nul\0.sf2", true),
        entry("a.sf2", true),
    ]);
    assert_eq!(options, vec!["a.sf2", "b.sf2", "B.sf2"]);
}

#[test]
fn sound_fonts_leave_room_for_the_built_in_one() {
    let entries = (0..200).map(|n| entry(&format!("{n:03}.sf2"), true)).collect();
    let options = sound_font_options(entries);
    assert_eq!(options.len(), 126);
    assert_eq!(options[125], "125.sf2");

    let definitions = v2_definitions(Locale::English, &options);
    let fonts = &definitions[3];
    assert_eq!(fonts.key, "wie_midi_soundfont");
    assert_eq!(fonts.values.len(), 128);
    assert!(fonts.values[127].is_none());
    let offered = values(&fonts.values);
    assert_eq!(offered.len(), 127);
    assert_eq!(offered[0], "builtin");
    assert_eq!(offered[126], "125.sf2");
}

#[test]
fn the_last_place_for_values_stays_empty() {
    let many = (0..150).map(|n| CoreOptionValue { value: n.to_string(), label: None }).collect();
    let slots = into_array(many);
    assert_eq!(slots.len(), 128);
    assert_eq!(slots.iter().flatten().count(), 127);
    assert!(slots[127].is_none());
}

#[test]
fn options_have_defaults() {
    let options = CoreOptions::default();
    assert_eq!((options.width, options.height), (240, 320));
    assert_eq!(options.runtime, RuntimeOption::Auto);
    assert!(options.midi_enabled);
    assert_eq!(options.midi_volume, 5);
    assert!(options.sound_font_path.is_none());

    let unknown = read_core_options(None, Some("x".to_owned()));
    assert_eq!((unknown.width, unknown.height, unknown.midi_volume), (240, 320, 5));
    assert!(unknown.sound_font_path.is_none());
}

#[test]
fn options_are_read_from_variables() {
    for (value, size) in
        [("128x128", (128, 128)), ("128x160", (128, 160)), ("176x208", (176, 208)), ("9x9", (240, 320))]
    {
        let variables = CoreVariables { resolution: Some(value.to_owned()), ..variables() };
        let options = read_core_options(Some(&variables), None);
        assert_eq!((options.width, options.height), size);
    }
    for (value, runtime) in [
        ("ktf", RuntimeOption::Ktf),
        ("lgt", RuntimeOption::Lgt),
        ("skt", RuntimeOption::Skt),
        ("j2me", RuntimeOption::J2me),
        ("auto", RuntimeOption::Auto),
        ("KTF", RuntimeOption::Auto),
    ] {
        let variables = CoreVariables { runtime: Some(value.to_owned()), ..variables() };
        assert_eq!(read_core_options(Some(&variables), None).runtime, runtime);
    }
    for (value, enabled) in [("off", false), ("on", true), ("", true)] {
        let variables = CoreVariables { midi: Some(value.to_owned()), ..variables() };
        assert_eq!(read_core_options(Some(&variables), None).midi_enabled, enabled);
    }
    for (value, volume) in
        [("0", 0), ("10", 10), ("007", 7), ("+3", 3), ("11", 5), ("-1", 5), ("", 5), ("+", 5), ("3 ", 5)]
    {
        let variables = CoreVariables { midi_volume: Some(value.to_owned()), ..variables() };
        assert_eq!(read_core_options(Some(&variables), None).midi_volume, volume);
    }
}

#[test]
fn sound_fonts_stay_in_their_directory() {
    for value in ["builtin", "../a.sf2", "a\\b.sf2", "a\0.sf2"] {
        let variables = CoreVariables { midi_soundfont: Some(value.to_owned()), ..variables() };
        assert_eq!(requested_sound_font(&variables), None);
        let options = read_core_options(Some(&variables), Some("/x/a.sf2".to_owned()));
        assert_eq!(options.sound_font_path, None);
    }
    let variables = CoreVariables { midi_soundfont: Some("a.sf2".to_owned()), ..variables() };
    assert_eq!(requested_sound_font(&variables), Some("a.sf2".to_owned()));
    let options = read_core_options(Some(&variables), Some("/x/a.sf2".to_owned()));
    assert_eq!(options.sound_font_path, Some("/x/a.sf2".to_owned()));
    assert_eq!(read_core_options(Some(&variables), None).sound_font_path, None);
}

#[test]
fn updates_must_be_announced() {
    assert!(core_options_updated(Some(true)));
    assert!(!core_options_updated(Some(false)));
    assert!(!core_options_updated(None));
}

#[test]
fn languages_are_known_by_number() {
    assert_eq!(frontend_locale(Some(12)), Locale::ZhHans);
    assert_eq!(frontend_locale(Some(11)), Locale::ZhHant);
    assert_eq!(frontend_locale(Some(3)), Locale::English);
    assert_eq!(frontend_locale(None), Locale::English);
}

#[test]
fn options_are_described_in_every_language() {
    let english = v2_definitions(Locale::English, &[]);
    let hans = v2_definitions(Locale::ZhHans, &[]);
    let hant = v2_definitions(Locale::ZhHant, &[]);
    assert_eq!(english.len(), 5);
    assert_eq!(english[0].desc, "Screen Resolution");
    assert_eq!(hans[0].desc, "屏幕分辨率");
    assert_eq!(hant[0].desc, "螢幕解析度");
    assert_eq!(english[1].values[0].as_ref().unwrap().label, Some("Auto"));
    assert_eq!(values(&english[0].values), vec!["240x320", "176x208", "128x160", "128x128"]);
    assert_eq!(values(&english[4].values).len(), 11);
    for definition in &english {
        assert!(values(&definition.values).contains(&definition.default_value));
    }
    assert_eq!(v1_definitions(Locale::ZhHans, &[])[0].info, "程序的屏幕尺寸。需重载核心。");
    assert_eq!(hans[0].info, "程式的屏幕尺寸。需重载核心。");
    assert_eq!(v2_categories(Locale::English)[2].key, "system");
}

#[test]
fn the_newest_interface_is_tried_first() {
    let fonts = vec!["a.sf2".to_owned()];
    let calls = register_core_options(Some(2), Locale::ZhHans, &fonts);
    assert_eq!(calls.len(), 2);
    assert!(matches!(&calls[0], OptionCall::V2Intl { .. }));
    assert!(matches!(&calls[1], OptionCall::V2 { .. }));
    let calls = register_core_options(Some(3), Locale::English, &fonts);
    assert!(matches!(calls.as_slice(), [OptionCall::V2 { .. }]));
    let calls = register_core_options(Some(1), Locale::ZhHant, &fonts);
    assert!(matches!(calls.as_slice(), [OptionCall::V1Intl { .. }, OptionCall::V1 { .. }]));
    for version in [Some(0), None] {
        let calls = register_core_options(version, Locale::ZhHant, &fonts);
        assert!(matches!(calls.as_slice(), [OptionCall::Variables { .. }]));
    }
}

#[test]
fn the_oldest_interface_has_one_text_for_each_option() {
    let fonts = vec!["a.sf2".to_owned(), "b.sf2".to_owned()];
    let list = legacy_variables(Locale::English, &fonts);
    assert_eq!(list.len(), 5);
    assert_eq!(list[1].value, "Runtime; auto|ktf|lgt|skt|j2me");
    assert_eq!(list[4].value, "MIDI SoundFont; builtin|a.sf2|b.sf2");
    assert_eq!(legacy_sound_font_variable(Locale::ZhHant, &[]), "MIDI 音色庫; builtin");
}
