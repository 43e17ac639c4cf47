use wie::config::Config;
use wie::gamepad::{
    activation_threshold, resolve_stick_direction, stick_axis, vibration, Axis, GamepadCallbackEvent,
    GamepadState, Lean, StickAxisComponent, StickKind,
};
use wie::input_state::{InputSource, InputState, PhysicalKey};
use wie::keys::{Button, GamepadAxisDirection, GamepadInput, KeyCode, WinitKeyCode};
use wie::pressed::Event;
use wie::window::WindowCallbackEvent;

const MS: u128 = 1_000_000;

fn lean(far: bool, sideways: bool, right: bool, down: bool) -> Lean {
    Lean { far, sideways, right, down }
}

#[test]
fn keys_repeat_after_a_while() {
    let mut state = InputState::new();
    let source = InputSource::Keyboard(WinitKeyCode::KeyA);
    assert!(state.press(source, KeyCode::OK, 0));
    assert!(!state.press(source, KeyCode::OK, 0));
    assert_eq!(state.repeat_due(100 * MS + MS - 1), vec![]);
    assert_eq!(state.repeat_due(101 * MS), vec![KeyCode::OK]);
    assert_eq!(state.repeat_due(150 * MS), vec![]);
    assert_eq!(state.repeat_due(50 * MS), vec![]);
    assert_eq!(state.release(source), Some(KeyCode::OK));
    assert_eq!(state.release(source), None);
    assert_eq!(state.repeat_due(900 * MS), vec![]);
}

#[test]
fn a_key_goes_up_with_its_last_input() {
    let mut state = InputState::new();
    let pad = InputSource::Gamepad { id: 1, input: GamepadInput::Button(Button::South) };
    let key = InputSource::Keyboard(WinitKeyCode::KeyB);
    assert!(state.press(pad, KeyCode::NUM5, 0));
    assert!(!state.press(key, KeyCode::NUM5, 0));
    assert_eq!(state.release(pad), None);
    assert_eq!(state.release(key), Some(KeyCode::NUM5));
}

#[test]
fn bound_inputs_become_events() {
    let (config, _) = Config::load(Some("[keyboard]\nKeyQ=NUM1\n[gamepad]\nSouth=NUM2\n"));
    let mut state = InputState::new();
    let key = PhysicalKey::Code(WinitKeyCode::KeyQ);
    assert_eq!(state.key_down(key, config.keyboard_map(), 0), Some(Event::Keydown(KeyCode::NUM1)));
    assert_eq!(state.key_up(key), Some(Event::Keyup(KeyCode::NUM1)));
    assert_eq!(state.key_down(PhysicalKey::Unidentified, config.keyboard_map(), 0), None);
    assert_eq!(state.key_up(PhysicalKey::Unidentified), None);

    let input = GamepadInput::Button(Button::South);
    let down = GamepadCallbackEvent::Keydown { id: 3, input };
    let up = GamepadCallbackEvent::Keyup { id: 3, input };
    assert_eq!(
        state.handle_gamepad_event(config.gamepad_map(), down, 0),
        Some(Event::Keydown(KeyCode::NUM2))
    );
    assert_eq!(state.handle_gamepad_event(config.gamepad_map(), down, 0), None);
    assert_eq!(
        state.handle_gamepad_event(config.gamepad_map(), up, 0),
        Some(Event::Keyup(KeyCode::NUM2))
    );
    let unbound = GamepadInput::Button(Button::Unknown);
    let down = GamepadCallbackEvent::Keydown { id: 3, input: unbound };
    assert_eq!(state.handle_gamepad_event(config.gamepad_map(), down, 0), None);
}

#[test]
fn the_window_tells_the_phone() {
    let (config, _) = Config::load(Some("[keyboard]\nKeyQ=NUM1\n[gamepad]\nSouth=NUM2\n"));
    let (keyboard, gamepad) = (config.keyboard_map(), config.gamepad_map());
    let mut state = InputState::new();
    let key = PhysicalKey::Code(WinitKeyCode::KeyQ);
    let down = WindowCallbackEvent::Keydown(key);
    assert_eq!(state.window_callback(down, keyboard, gamepad, &[], 0), vec![Event::Keydown(KeyCode::NUM1)]);
    assert_eq!(state.window_callback(down, keyboard, gamepad, &[], 0), vec![]);

    let input = GamepadInput::Button(Button::South);
    let pads = [
        (GamepadCallbackEvent::Keydown { id: 3, input }, 150 * MS),
        (GamepadCallbackEvent::Keydown { id: 4, input }, 150 * MS),
    ];
    let update = WindowCallbackEvent::Update;
    assert_eq!(
        state.window_callback(update, keyboard, gamepad, &pads, 150 * MS),
        vec![Event::Keydown(KeyCode::NUM2), Event::Keyrepeat(KeyCode::NUM1)]
    );
    assert_eq!(
        state.window_callback(update, keyboard, gamepad, &[], 251 * MS),
        vec![Event::Keyrepeat(KeyCode::NUM1), Event::Keyrepeat(KeyCode::NUM2)]
    );
    let up = WindowCallbackEvent::Keyup(key);
    assert_eq!(state.window_callback(up, keyboard, gamepad, &[], 0), vec![Event::Keyup(KeyCode::NUM1)]);
    let redraw = WindowCallbackEvent::Redraw;
    assert_eq!(state.window_callback(redraw, keyboard, gamepad, &[], 0), vec![Event::Redraw]);
}

#[test]
fn sticks_press_one_direction() {
    assert_eq!(
        resolve_stick_direction(StickKind::Left, lean(true, true, true, false)),
        Some(GamepadAxisDirection::LeftStickRight)
    );
    assert_eq!(
        resolve_stick_direction(StickKind::Right, lean(true, false, true, false)),
        Some(GamepadAxisDirection::RightStickUp)
    );
    assert_eq!(resolve_stick_direction(StickKind::Left, lean(false, true, true, true)), None);
    assert_eq!(stick_axis(Axis::RightStickY), Some((StickKind::Right, StickAxisComponent::Y)));
    assert_eq!(stick_axis(Axis::Other), None);
    assert_eq!(activation_threshold(None), 5);
    assert_eq!(activation_threshold(Some(GamepadAxisDirection::LeftStickUp)), 3);
}

#[test]
fn turning_a_stick_lets_go_of_where_it_was() {
    let mut pads = GamepadState::new();
    let state = pads.set_axis(1, StickKind::Left, StickAxisComponent::X, 0.9f32.to_bits());
    assert_eq!((f32::from_bits(state.x), f32::from_bits(state.y)), (0.9, 0.0));
    assert_eq!(state.active_direction, None);
    let right = GamepadInput::Axis(GamepadAxisDirection::LeftStickRight);
    let down = GamepadInput::Axis(GamepadAxisDirection::LeftStickDown);
    assert_eq!(
        pads.turn_stick(1, StickKind::Left, lean(true, true, true, true)),
        vec![GamepadCallbackEvent::Keydown { id: 1, input: right }]
    );
    assert_eq!(pads.turn_stick(1, StickKind::Left, lean(true, true, true, true)), vec![]);
    assert_eq!(
        pads.turn_stick(1, StickKind::Left, lean(true, false, true, true)),
        vec![
            GamepadCallbackEvent::Keyup { id: 1, input: right },
            GamepadCallbackEvent::Keydown { id: 1, input: down },
        ]
    );
    let state = pads.set_axis(1, StickKind::Left, StickAxisComponent::Y, 1);
    assert_eq!(state.active_direction, Some(GamepadAxisDirection::LeftStickDown));
}

#[test]
fn a_gamepad_that_goes_lets_go_of_all() {
    let mut pads = GamepadState::new();
    let south = GamepadInput::Button(Button::South);
    let east = GamepadInput::Button(Button::East);
    let left = GamepadInput::Axis(GamepadAxisDirection::LeftStickLeft);
    assert_eq!(pads.press_button(1, Button::South), GamepadCallbackEvent::Keydown { id: 1, input: south });
    pads.press_button(2, Button::South);
    pads.press_button(1, Button::East);
    assert_eq!(pads.release_button(1, Button::East), GamepadCallbackEvent::Keyup { id: 1, input: east });
    pads.turn_stick(1, StickKind::Left, lean(true, true, false, false));

    let mut gone = pads.disconnect(1);
    gone.sort_by_key(|event| matches!(event, GamepadCallbackEvent::Keyup { input, .. } if *input == left));
    assert_eq!(
        gone,
        vec![
            GamepadCallbackEvent::Keyup { id: 1, input: south },
            GamepadCallbackEvent::Keyup { id: 1, input: left },
        ]
    );
    assert_eq!(pads.disconnect(1), vec![]);
    assert_eq!(pads.disconnect(2), vec![GamepadCallbackEvent::Keyup { id: 2, input: south }]);
}

#[test]
fn gamepads_vibrate_within_their_limits() {
    let strong = vibration(true, 40, 100).unwrap();
    assert_eq!((strong.magnitude, strong.duration_ms, strong.keep_ms), (65535, 40, 290));
    let short = vibration(true, 0, 50).unwrap();
    assert_eq!((short.magnitude, short.duration_ms), (32767, 1));
    assert_eq!(vibration(true, u64::MAX, 1).unwrap().duration_ms, u32::MAX);
    assert_eq!(vibration(true, 40, 0), None);
    assert_eq!(vibration(false, 40, 100), None);
}
