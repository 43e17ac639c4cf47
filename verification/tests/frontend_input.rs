use wie::keys::KeyCode;
use wie::pressed::Event;
use wie::retro_input::{
    bindings, default_joypad_bindings, input_descriptors, keyboard_bindings, InputManager,
    RETRO_DEVICE_ANALOG, RETRO_DEVICE_ID_ANALOG_X, RETRO_DEVICE_ID_ANALOG_Y, RETRO_DEVICE_ID_JOYPAD_A,
    RETRO_DEVICE_ID_JOYPAD_B, RETRO_DEVICE_ID_JOYPAD_DOWN, RETRO_DEVICE_ID_JOYPAD_L,
    RETRO_DEVICE_ID_JOYPAD_L2, RETRO_DEVICE_ID_JOYPAD_LEFT, RETRO_DEVICE_ID_JOYPAD_R,
    RETRO_DEVICE_ID_JOYPAD_R2, RETRO_DEVICE_ID_JOYPAD_RIGHT, RETRO_DEVICE_ID_JOYPAD_SELECT,
    RETRO_DEVICE_ID_JOYPAD_START, RETRO_DEVICE_ID_JOYPAD_UP, RETRO_DEVICE_ID_JOYPAD_X,
    RETRO_DEVICE_ID_JOYPAD_Y, RETRO_DEVICE_JOYPAD,
};

#[test]
fn keyboard_completes_phone_keypad() {
    assert!(keyboard_bindings().len() >= 24);
}

#[test]
fn joypad_descriptors_are_terminated_elsewhere() {
    assert_eq!(default_joypad_bindings().len(), 17);
}

#[test]
fn default_joypad_layout_matches_lgt_phone_keys() {
    assert_joy(RETRO_DEVICE_ID_JOYPAD_UP, KeyCode::NUM2);
    assert_joy(RETRO_DEVICE_ID_JOYPAD_DOWN, KeyCode::NUM8);
    assert_joy(RETRO_DEVICE_ID_JOYPAD_LEFT, KeyCode::NUM4);
    assert_joy(RETRO_DEVICE_ID_JOYPAD_RIGHT, KeyCode::NUM6);
    assert_joy(RETRO_DEVICE_ID_JOYPAD_B, KeyCode::OK);
    assert_joy(RETRO_DEVICE_ID_JOYPAD_A, KeyCode::CLEAR);
    assert_joy(RETRO_DEVICE_ID_JOYPAD_Y, KeyCode::NUM7);
    assert_joy(RETRO_DEVICE_ID_JOYPAD_X, KeyCode::NUM9);
    assert_joy(RETRO_DEVICE_ID_JOYPAD_L, KeyCode::STAR);
    assert_joy(RETRO_DEVICE_ID_JOYPAD_R, KeyCode::HASH);
    assert_joy(RETRO_DEVICE_ID_JOYPAD_L2, KeyCode::NUM1);
    assert_joy(RETRO_DEVICE_ID_JOYPAD_R2, KeyCode::NUM3);
    assert_joy(RETRO_DEVICE_ID_JOYPAD_START, KeyCode::NUM0);
    assert!(default_joypad_bindings()
        .iter()
        .all(|binding| binding.id != RETRO_DEVICE_ID_JOYPAD_SELECT));
    assert_analog(RETRO_DEVICE_ID_ANALOG_Y, -1, KeyCode::UP);
    assert_analog(RETRO_DEVICE_ID_ANALOG_Y, 1, KeyCode::DOWN);
    assert_analog(RETRO_DEVICE_ID_ANALOG_X, -1, KeyCode::LEFT);
    assert_analog(RETRO_DEVICE_ID_ANALOG_X, 1, KeyCode::RIGHT);
}

fn assert_joy(id: u32, key: KeyCode) {
    assert!(default_joypad_bindings()
        .iter()
        .any(|binding| binding.device == RETRO_DEVICE_JOYPAD && binding.id == id && binding.key == key));
}

fn assert_analog(id: u32, direction: i8, key: KeyCode) {
    assert!(default_joypad_bindings().iter().any(|binding| binding.device == RETRO_DEVICE_ANALOG
        && binding.id == id
        && binding.direction == direction
        && binding.key == key));
}

fn place(device: u32, key: KeyCode) -> usize {
    bindings().iter().position(|binding| binding.device == device && binding.key == key).unwrap()
}

#[test]
fn two_inputs_hold_one_key() {
    let mut manager = InputManager::new();
    let joypad = place(RETRO_DEVICE_JOYPAD, KeyCode::NUM2);
    let keyboard = place(3, KeyCode::NUM2);
    let mut values = vec![0i16; bindings().len()];

    values[joypad] = 1;
    assert_eq!(manager.poll(Some(&values)), vec![Event::Keydown(KeyCode::NUM2)]);
    assert_eq!(manager.poll(Some(&values)), vec![]);
    values[keyboard] = 1;
    assert_eq!(manager.poll(Some(&values)), vec![]);
    values[joypad] = 0;
    assert_eq!(manager.poll(Some(&values)), vec![]);
    values[keyboard] = 0;
    assert_eq!(manager.poll(Some(&values)), vec![Event::Keyup(KeyCode::NUM2)]);
    assert_eq!(manager.poll(None), vec![]);
}

#[test]
fn sticks_have_a_dead_zone() {
    let mut manager = InputManager::new();
    let up = place(RETRO_DEVICE_ANALOG, KeyCode::UP);
    let down = place(RETRO_DEVICE_ANALOG, KeyCode::DOWN);
    let mut values = vec![0i16; bindings().len()];
    values[up] = -16_383;
    values[down] = -16_383;
    assert_eq!(manager.poll(Some(&values)), vec![]);
    values[up] = -16_384;
    values[down] = -16_384;
    assert_eq!(manager.poll(Some(&values)), vec![Event::Keydown(KeyCode::UP)]);
    values[up] = 16_384;
    values[down] = 16_384;
    assert_eq!(
        manager.poll(Some(&values)),
        vec![Event::Keyup(KeyCode::UP), Event::Keydown(KeyCode::DOWN)]
    );
}

#[test]
fn descriptors_end_in_an_empty_one() {
    let descriptors = input_descriptors();
    assert_eq!(descriptors.len(), 18);
    assert_eq!(descriptors[0].description, Some("Navigation Up"));
    assert_eq!(descriptors[16].description, Some("0"));
    assert_eq!(descriptors[17].description, None);
    assert!(descriptors.iter().all(|descriptor| descriptor.port == 0));
}

#[test]
fn no_input_is_bound_twice() {
    let all = bindings();
    for (index, binding) in all.iter().enumerate() {
        for other in &all[index + 1..] {
            assert!(binding.source() != other.source());
        }
    }
}
