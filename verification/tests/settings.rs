use wie::config::{config_header, to_cfg_string, Config};
use wie::keys::{
    format_backend_key_code, format_gamepad_axis_direction, format_gamepad_input, format_winit_key_code,
    parse_backend_key_code, parse_gamepad_axis_direction, parse_gamepad_input, parse_winit_key_code, Button,
    GamepadAxisDirection, GamepadInput, KeyCode, WinitKeyCode,
};

#[test]
fn names_are_read_back() {
    for key in [WinitKeyCode::KeyA, WinitKeyCode::Enter, WinitKeyCode::NumpadAdd, WinitKeyCode::F12] {
        let name = format_winit_key_code(key);
        assert_eq!(parse_winit_key_code(name), Some(key));
    }
    assert_eq!(parse_winit_key_code("NoSuchKey"), None);
    for key in [KeyCode::OK, KeyCode::LEFT_SOFT_KEY, KeyCode::NUM0, KeyCode::HASH] {
        assert_eq!(parse_backend_key_code(format_backend_key_code(key)), Some(key));
    }
    for direction in [GamepadAxisDirection::LeftStickUp, GamepadAxisDirection::RightStickRight] {
        assert_eq!(
            parse_gamepad_axis_direction(format_gamepad_axis_direction(direction)),
            Some(direction)
        );
    }
    let input = GamepadInput::Button(Button::DPadLeft);
    assert_eq!(parse_gamepad_input(format_gamepad_input(input)), Some(input));
}

#[test]
fn the_file_comes_before_the_defaults() {
    let (config, written) = Config::load(Some("; note\n[keyboard]\n  KeyZ = NUM9  \nbad line\nKeyX=\n"));
    assert!(written.is_none());
    assert_eq!(config.keyboard_map().get(WinitKeyCode::KeyZ), Some(KeyCode::NUM9));
    let (defaults, text) = Config::load(None);
    let text = text.unwrap();
    assert_eq!(text, to_cfg_string());
    assert!(text.starts_with(config_header().as_str()));
    let (again, _) = Config::load(Some(&text));
    for key in [WinitKeyCode::KeyX, WinitKeyCode::ArrowUp, WinitKeyCode::Digit1, WinitKeyCode::Enter] {
        assert_eq!(again.keyboard_map().get(key), defaults.keyboard_map().get(key));
        assert_eq!(config.keyboard_map().get(key), defaults.keyboard_map().get(key));
    }
    let stick = GamepadInput::Axis(GamepadAxisDirection::LeftStickUp);
    assert_eq!(again.gamepad_map().get(stick), defaults.gamepad_map().get(stick));
    assert!(defaults.gamepad_map().get(GamepadInput::Button(Button::South)).is_some());
}
