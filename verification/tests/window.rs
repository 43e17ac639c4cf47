use wie::input_state::PhysicalKey;
use wie::keys::WinitKeyCode;
use wie::scaler::{scale_nearest_integer, Scaler, Size};
use wie::video::Frame;
use wie::window::{WindowAction, WindowCallbackEvent, WindowEvent, WindowInternalEvent, WindowMail, WindowState};

#[test]
fn pixels_become_blocks() {
    let mut dst = [9; 13];
    scale_nearest_integer(&mut dst, &[1, 2, 3], 3, 1, 2);
    assert_eq!(dst, [1, 1, 2, 2, 3, 3, 1, 1, 2, 2, 3, 3, 9]);
    let mut dst = [0; 36];
    scale_nearest_integer(&mut dst, &[1, 2, 3, 4], 2, 2, 3);
    assert_eq!(&dst[12..24], &[1, 1, 1, 2, 2, 2, 3, 3, 3, 4, 4, 4]);
}

#[test]
fn scalers_go_by_their_scale() {
    assert_eq!(Scaler::new(0), Scaler::Native);
    assert_eq!(Scaler::new(1), Scaler::Native);
    assert_eq!(Scaler::new(3), Scaler::Nearest { scale: 3 });
    let size = Size { width: 5, height: 7 };
    assert_eq!(Scaler::new(3).to_physical(size), Size { width: 15, height: 21 });
    assert_eq!(Scaler::Hqx { times: 2 }.to_physical(size), Size { width: 10, height: 14 });
    assert_eq!(Scaler::Native.to_physical(size), size);
    assert_eq!(Scaler::Hqx { times: 4 }.scale(), 4);
}

#[test]
fn scalers_have_names() {
    assert_eq!(Scaler::Native.text(), "Native");
    assert_eq!(Scaler::new(12).text(), "Nearest(12x)");
    assert_eq!(Scaler::Hqx { times: 3 }.text(), "Hq3x");
}

#[test]
fn smooth_scaling_keeps_flat_pictures() {
    let size = Size { width: 2, height: 2 };
    for times in 2..=4u8 {
        let flat = vec![0x00336699; 4];
        let mut dst = vec![0; 4 * times as usize * times as usize];
        Scaler::Hqx { times }.scale_image(&mut dst, &flat, size);
        assert!(dst.iter().all(|pixel| *pixel == 0x00336699));
    }
    let mut dst = vec![0; 4];
    Scaler::Native.scale_image(&mut dst, &vec![1, 2, 3, 4], size);
    assert_eq!(dst, vec![1, 2, 3, 4]);
}

#[test]
fn smooth_scaling_is_that_of_the_magnifier() {
    let picture = vec![0x00ff0000, 0x0000ff00, 0x000000ff, 0x00ffffff, 0, 0x00ff0000];
    let size = Size { width: 3, height: 2 };
    let mut expected = vec![0; 24];
    hqx::hq2x(&picture, &mut expected, 3, 2);
    let mut dst = vec![0; 24];
    Scaler::Hqx { times: 2 }.scale_image(&mut dst, &picture, size);
    assert_eq!(dst, expected);
    let mut expected = vec![0; 54];
    hqx::hq3x(&picture, &mut expected, 3, 2);
    let mut dst = vec![0; 54];
    Scaler::Hqx { times: 3 }.scale_image(&mut dst, &picture, size);
    assert_eq!(dst, expected);
    let mut expected = vec![0; 96];
    hqx::hq4x(&picture, &mut expected, 3, 2);
    let mut dst = vec![0; 96];
    Scaler::Hqx { times: 4 }.scale_image(&mut dst, &picture, size);
    assert_eq!(dst, expected);
    assert_ne!(dst[0..6], picture[..]);
}

#[test]
fn the_window_enlarges_the_frame() {
    let mut window = WindowState::new(2, 1);
    window.update_scale_factor(1);
    window.set_frame(vec![5, 6]);
    assert_eq!(window.paint_last_frame(2), Some(vec![5, 6]));
    assert_eq!(window.paint_last_frame(3), None);
    assert!(window.must_resize_surface(None));
    assert!(!window.must_resize_surface(Some(2)));

    window.update_scale_factor(2);
    assert_eq!(window.scaled_size(), Size { width: 4, height: 2 });
    assert!(window.must_resize_surface(Some(2)));
    assert_eq!(window.paint_last_frame(8), Some(vec![5, 5, 6, 6, 5, 5, 6, 6]));
    assert_eq!(window.paint_last_frame(2), None);
    window.update_scale_factor(0);
    assert_eq!(window.scaled_size(), Size { width: 2, height: 1 });
}

#[test]
fn window_events_have_actions() {
    let mut window = WindowState::new(240, 320);
    let key = |code, pressed, repeat| WindowEvent::KeyboardInput {
        key: PhysicalKey::Code(code),
        pressed,
        repeat,
    };
    assert_eq!(window.window_event(WindowEvent::CloseRequested), WindowAction::Exit);
    assert_eq!(
        window.window_event(key(WinitKeyCode::Equal, true, false)),
        WindowAction::Zoom { scale: 2 }
    );
    assert_eq!(
        window.window_event(key(WinitKeyCode::NumpadSubtract, true, false)),
        WindowAction::Zoom { scale: 0 }
    );
    assert_eq!(window.window_event(key(WinitKeyCode::Equal, true, true)), WindowAction::Nothing);
    let minus = PhysicalKey::Code(WinitKeyCode::Minus);
    assert_eq!(
        window.window_event(key(WinitKeyCode::Minus, false, false)),
        WindowAction::Callback(WindowCallbackEvent::Keyup(minus))
    );
    let letter = PhysicalKey::Code(WinitKeyCode::KeyA);
    assert_eq!(
        window.window_event(key(WinitKeyCode::KeyA, true, false)),
        WindowAction::Callback(WindowCallbackEvent::Keydown(letter))
    );
    assert_eq!(
        window.window_event(WindowEvent::RedrawRequested),
        WindowAction::Callback(WindowCallbackEvent::Redraw)
    );
    let size = Size { width: 9, height: 8 };
    assert_eq!(window.window_event(WindowEvent::Resized { size }), WindowAction::Resize { size });
    window.resized(size);
    assert_eq!(
        window.window_event(WindowEvent::ScaleFactorChanged),
        WindowAction::RequestSize { size: Size { width: 240, height: 320 } }
    );
    assert_eq!(window.window_event(WindowEvent::Other), WindowAction::Nothing);
    assert_ne!(WindowInternalEvent::Paint, WindowInternalEvent::Quit);
}

#[test]
fn the_window_is_told_once() {
    let mut mail = WindowMail::new();
    assert!(mail.request_redraw());
    assert!(!mail.request_redraw());
    mail.redraw_done();
    assert!(mail.request_redraw());

    assert!(mail.paint(vec![1]));
    assert!(!mail.paint(vec![2]));
    assert_eq!(mail.take_frame(), Some(vec![2]));
    assert_eq!(mail.take_frame(), None);
    assert!(mail.paint(vec![3]));
    mail.paint_failed();
    assert!(mail.paint(vec![4]));
}

#[test]
fn frames_have_a_short_form() {
    let mut frame = Frame::new(2, 1);
    assert_eq!(frame.argb8888, vec![0xff000000; 2]);
    assert_eq!(frame.rgb565(), &[0, 0]);
    frame.replace_argb8888(3, 1, vec![0x00ff0000, 0xff00ff00, 0x000000ff]);
    assert_eq!(frame.rgb565(), &[0xf800, 0x07e0, 0x001f]);
    assert_eq!(frame.rgb565(), &[0xf800, 0x07e0, 0x001f]);
    let mut copy = Frame::new(1, 1);
    copy.copy_from(&frame);
    assert_eq!((copy.width, copy.height), (3, 1));
    assert_eq!(copy.argb8888, frame.argb8888);
}
