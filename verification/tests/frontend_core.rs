use wie::content::LoadedContent;
use wie::keys::KeyCode;
use wie::lifecycle::{av_info, log_message, serialize_size, system_info, GlobalState};
use wie::options::{CoreOptions, RuntimeOption};
use wie::pressed::Event;
use wie::retro_core::{
    can_dupe, reload_warning, rumble_strength, set_pixel_format, stereo_frames, LibretroCore, PixelFormat,
    Pixels, AUDIO_FRAMES_PER_RUN,
};
use wie::retro_input::bindings;
use wie::shared::{idle_sleep, GuestExit, Shared, WorkerEnd, WorkerMsg};
use wie::smaf_player::SmafPlayer;
use wie::video::Frame;

const SECOND: u128 = 1_000_000_000;

fn loaded(format: PixelFormat, can_rumble: bool) -> LibretroCore {
    let content = LoadedContent::single("test.zip".to_owned(), Vec::new());
    LibretroCore::load(content, CoreOptions::default(), format, can_rumble)
}

#[test]
fn rumble_request_starts_and_stops() {
    let mut shared = Shared::new();
    shared.vibrate(1000, 50);
    let mut core = loaded(PixelFormat::Xrgb8888, true);

    assert_eq!(core.update_rumble(shared.take_rumble(), 0), vec![32767]);
    assert_eq!(core.update_rumble(shared.take_rumble(), SECOND - 1), vec![]);
    assert_eq!(core.update_rumble(shared.take_rumble(), SECOND), vec![0]);
    assert_eq!(core.update_rumble(shared.take_rumble(), SECOND), vec![]);
}

#[test]
fn rumble_has_limits() {
    assert_eq!(rumble_strength(0), 0);
    assert_eq!(rumble_strength(100), 65535);
    assert_eq!(rumble_strength(200), 65535);
    let mut still = loaded(PixelFormat::Xrgb8888, false);
    assert_eq!(still.update_rumble(Some((1000, 50)), 0), vec![]);
    let mut core = loaded(PixelFormat::Xrgb8888, true);
    assert_eq!(core.update_rumble(Some((0, 100)), 0), vec![65535]);
    assert_eq!(core.stop_rumble(), None);
    assert_eq!(core.update_rumble(Some((10, 100)), 0), vec![65535]);
    assert_eq!(core.stop_rumble(), Some(0));
    assert_eq!(core.update_rumble(Some((10, 0)), 0), vec![0]);
    assert_eq!(core.update_rumble(Some((10, 100)), u128::MAX), vec![65535, 0]);
}

#[test]
fn pixels_are_agreed_on() {
    assert_eq!(set_pixel_format(None, None), PixelFormat::Xrgb8888);
    assert_eq!(set_pixel_format(Some(true), None), PixelFormat::Xrgb8888);
    assert_eq!(set_pixel_format(Some(false), Some(true)), PixelFormat::Rgb565);
    assert_eq!(set_pixel_format(Some(false), Some(false)), PixelFormat::Xrgb8888);
    assert!(can_dupe(Some(true)));
    assert!(!can_dupe(None));
}

#[test]
fn pictures_have_the_agreed_form() {
    let mut frame = Frame::new(1, 1);
    frame.replace_argb8888(2, 1, vec![0x00ff0000, 0x000000ff]);

    let picture = loaded(PixelFormat::Xrgb8888, false).present_video(Some(&frame));
    assert_eq!((picture.width, picture.height, picture.pitch), (2, 1, 8));
    assert!(matches!(picture.pixels, Pixels::Xrgb8888(pixels) if pixels == vec![0x00ff0000, 0x000000ff]));

    let mut short = loaded(PixelFormat::Rgb565, false);
    let picture = short.present_video(Some(&frame));
    assert_eq!(picture.pitch, 4);
    assert!(matches!(picture.pixels, Pixels::Rgb565(pixels) if pixels == vec![0xf800, 0x001f]));
    let picture = short.present_video(None);
    assert!(matches!(picture.pixels, Pixels::Rgb565(pixels) if pixels == vec![0xf800, 0x001f]));

    let picture = loaded(PixelFormat::Xrgb8888, false).present_video(None);
    assert_eq!((picture.width, picture.height), (240, 320));
}

#[test]
fn some_options_wait_for_a_reload() {
    let mut core = loaded(PixelFormat::Xrgb8888, false);
    let same = core.apply_hot_options(CoreOptions::default());
    assert_eq!((same.midi, same.needs_reload), (None, false));
    let quiet = core.apply_hot_options(CoreOptions { midi_enabled: false, ..CoreOptions::default() });
    assert_eq!((quiet.midi, quiet.needs_reload), (Some(false), false));
    let loud = core.apply_hot_options(CoreOptions { midi_volume: 9, ..CoreOptions::default() });
    assert_eq!((loud.midi, loud.needs_reload), (Some(true), true));
    let font = CoreOptions { sound_font_path: Some("x".to_owned()), ..CoreOptions::default() };
    assert!(core.apply_hot_options(font).needs_reload);
    let forced = CoreOptions {
        runtime: RuntimeOption::Ktf,
        sound_font_path: Some("x".to_owned()),
        ..CoreOptions::default()
    };
    assert!(core.apply_hot_options(forced).needs_reload);
    assert!(reload_warning().contains("reloading"));
}

#[test]
fn the_core_polls_its_inputs() {
    let mut core = loaded(PixelFormat::Xrgb8888, false);
    let mut values = vec![0i16; bindings().len()];
    values[8] = 1;
    assert_eq!(core.poll(Some(&values)), vec![Event::Keydown(KeyCode::OK)]);
    assert_eq!(core.poll(None), vec![]);
    assert_eq!(core.content().name, "test.zip");
}

#[test]
fn sound_comes_in_pairs() {
    assert_eq!(stereo_frames(&[1, 2, 3, 4, 5]), vec![(1, 2), (3, 4)]);
    assert_eq!(AUDIO_FRAMES_PER_RUN, 800);
}

#[test]
fn the_worker_gets_messages_and_redraws() {
    let mut shared = Shared::new();
    let message = WorkerMsg::Event(Event::Keydown(KeyCode::OK));
    assert_eq!(
        shared.begin_turn(&[message]),
        Some(vec![Event::Keydown(KeyCode::OK), Event::Redraw])
    );
    assert_eq!(shared.begin_turn(&[]), Some(vec![]));
    shared.request_redraw();
    assert_eq!(shared.begin_turn(&[]), Some(vec![Event::Redraw]));
    shared.quit();
    assert_eq!(shared.begin_turn(&[message]), None);
    assert_eq!(idle_sleep(400_000), Some(600_000));
    assert_eq!(idle_sleep(1_000_000), None);
}

#[test]
fn failures_are_reported_once() {
    let mut shared = Shared::new();
    assert_eq!(shared.take_fatal(), None);
    shared.fail("broken".to_owned());
    assert!(shared.quits());
    assert_eq!(shared.take_fatal(), Some("broken".to_owned()));
    assert_eq!(shared.take_fatal(), None);

    let mut shared = Shared::new();
    shared.worker_ended(WorkerEnd::GuestExited(GuestExit));
    assert!(shared.quits());
    assert_eq!(shared.take_fatal(), None);
    shared.worker_ended(WorkerEnd::Panicked);
    assert_eq!(shared.take_fatal(), Some("emulator worker panicked".to_owned()));
    shared.worker_joined(true);
    assert_eq!(shared.take_fatal(), Some("emulator worker panicked during shutdown".to_owned()));
    let mut shared = Shared::new();
    shared.worker_ended(WorkerEnd::Returned);
    assert!(!shared.quits());
}

#[test]
fn content_is_loaded_and_unloaded() {
    let mut state = GlobalState::new("/save".to_owned());
    assert!(state.content().is_none());
    assert!(state.load_locked(Some(loaded(PixelFormat::Xrgb8888, false))));
    assert_eq!(state.content().unwrap().name, "test.zip");
    assert!(state.unload_locked().is_some());
    assert!(state.unload_locked().is_none());
    assert!(!state.load_locked(None));
    assert_eq!(state.save_dir(), "/save");
    state.set_directory("/other".to_owned());
    assert_eq!(state.save_dir(), "/other");
}

#[test]
fn the_core_describes_itself() {
    let info = system_info();
    assert_eq!((info.valid_extensions, info.need_fullpath, info.block_extract), ("zip", true, true));
    let av = av_info(&CoreOptions { width: 128, height: 160, ..CoreOptions::default() });
    assert_eq!((av.base_width, av.max_height, av.fps, av.sample_rate), (128, 160, 60, 48_000));
    assert_eq!(serialize_size(), 0);
    assert_eq!(log_message("a\0b"), "a b");
}

#[test]
fn java_keeps_handles_as_signed_numbers() {
    let mut player = SmafPlayer::init(0xffff_fffe);
    assert_eq!(player.audio_handle, -2);
    assert_eq!(player.start(), (0xffff_fffe, 1));
    player.set_loop_count(-1);
    assert_eq!(player.start(), (0xffff_fffe, -1));
    assert_eq!(SmafPlayer::init(7).handle(), 7);
}
