//! A file with the default bindings reads back as the default bindings.

use vstd::prelude::*;

verus! {

use crate::config::{
    bindings_of,
    completed,
    default_text,
    gamepad_defaults,
    gamepad_input,
    gamepad_lines,
    header_text,
    keyboard_key,
    keyboard_lines,
    phone_key,
    unread,
    ReaderModel,
    Section,
    AVAILABLE_PHONE_KEY_NAMES,
    DEFAULT_KEYBOARD_MAP,
};
use crate::keys::{
    gamepad_input_name,
    lemma_gamepad_names_differ,
    lemma_phone_names_differ,
    lemma_winit_names_differ,
    names_phone_key,
    phone_key_name,
    winit_key_name,
    Button,
    GamepadAxisDirection,
    GamepadInput,
    KeyCode,
    WinitKeyCode,
};
use crate::text::{find_char, is_white, lemma_find_char, trim_back, trim_front, trimmed};

/// The text is on one line.
spec fn one_line(s: Seq<char>) -> bool {
    forall|i: int| 0 <= i < s.len() ==> s[i] != '\n'
}

/// The text is a word that starts no comment and no section.
spec fn plain(s: Seq<char>) -> bool {
    &&& s.len() > 0
    &&& forall|i: int| 0 <= i < s.len() ==> !is_white(#[trigger] s[i]) && s[i] != '='
    &&& s[0] != '#'
    &&& s[0] != ';'
    &&& s[0] != '['
}

proof fn lemma_keyboard_name(value: WinitKeyCode)
    ensures
        plain(winit_key_name(value)),
{
    match value {
        WinitKeyCode::KeyA => {
            reveal_strlit("KeyA");
        },
        WinitKeyCode::KeyB => {
            reveal_strlit("KeyB");
        },
        WinitKeyCode::KeyC => {
            reveal_strlit("KeyC");
        },
        WinitKeyCode::KeyD => {
            reveal_strlit("KeyD");
        },
        WinitKeyCode::KeyE => {
            reveal_strlit("KeyE");
        },
        WinitKeyCode::KeyF => {
            reveal_strlit("KeyF");
        },
        WinitKeyCode::KeyG => {
            reveal_strlit("KeyG");
        },
        WinitKeyCode::KeyH => {
            reveal_strlit("KeyH");
        },
        WinitKeyCode::KeyI => {
            reveal_strlit("KeyI");
        },
        WinitKeyCode::KeyJ => {
            reveal_strlit("KeyJ");
        },
        WinitKeyCode::KeyK => {
            reveal_strlit("KeyK");
        },
        WinitKeyCode::KeyL => {
            reveal_strlit("KeyL");
        },
        WinitKeyCode::KeyM => {
            reveal_strlit("KeyM");
        },
        WinitKeyCode::KeyN => {
            reveal_strlit("KeyN");
        },
        WinitKeyCode::KeyO => {
            reveal_strlit("KeyO");
        },
        WinitKeyCode::KeyP => {
            reveal_strlit("KeyP");
        },
        WinitKeyCode::KeyQ => {
            reveal_strlit("KeyQ");
        },
        WinitKeyCode::KeyR => {
            reveal_strlit("KeyR");
        },
        WinitKeyCode::KeyS => {
            reveal_strlit("KeyS");
        },
        WinitKeyCode::KeyT => {
            reveal_strlit("KeyT");
        },
        WinitKeyCode::KeyU => {
            reveal_strlit("KeyU");
        },
        WinitKeyCode::KeyV => {
            reveal_strlit("KeyV");
        },
        WinitKeyCode::KeyW => {
            reveal_strlit("KeyW");
        },
        WinitKeyCode::KeyX => {
            reveal_strlit("KeyX");
        },
        WinitKeyCode::KeyY => {
            reveal_strlit("KeyY");
        },
        WinitKeyCode::KeyZ => {
            reveal_strlit("KeyZ");
        },
        WinitKeyCode::Digit0 => {
            reveal_strlit("Digit0");
        },
        WinitKeyCode::Digit1 => {
            reveal_strlit("Digit1");
        },
        WinitKeyCode::Digit2 => {
            reveal_strlit("Digit2");
        },
        WinitKeyCode::Digit3 => {
            reveal_strlit("Digit3");
        },
        WinitKeyCode::Digit4 => {
            reveal_strlit("Digit4");
        },
        WinitKeyCode::Digit5 => {
            reveal_strlit("Digit5");
        },
        WinitKeyCode::Digit6 => {
            reveal_strlit("Digit6");
        },
        WinitKeyCode::Digit7 => {
            reveal_strlit("Digit7");
        },
        WinitKeyCode::Digit8 => {
            reveal_strlit("Digit8");
        },
        WinitKeyCode::Digit9 => {
            reveal_strlit("Digit9");
        },
        WinitKeyCode::Space => {
            reveal_strlit("Space");
        },
        WinitKeyCode::Tab => {
            reveal_strlit("Tab");
        },
        WinitKeyCode::Enter => {
            reveal_strlit("Enter");
        },
        WinitKeyCode::Escape => {
            reveal_strlit("Escape");
        },
        WinitKeyCode::Backspace => {
            reveal_strlit("Backspace");
        },
        WinitKeyCode::Backquote => {
            reveal_strlit("Backquote");
        },
        WinitKeyCode::Minus => {
            reveal_strlit("Minus");
        },
        WinitKeyCode::Equal => {
            reveal_strlit("Equal");
        },
        WinitKeyCode::BracketLeft => {
            reveal_strlit("BracketLeft");
        },
        WinitKeyCode::BracketRight => {
            reveal_strlit("BracketRight");
        },
        WinitKeyCode::Backslash => {
            reveal_strlit("Backslash");
        },
        WinitKeyCode::Semicolon => {
            reveal_strlit("Semicolon");
        },
        WinitKeyCode::Quote => {
            reveal_strlit("Quote");
        },
        WinitKeyCode::Comma => {
            reveal_strlit("Comma");
        },
        WinitKeyCode::Period => {
            reveal_strlit("Period");
        },
        WinitKeyCode::Slash => {
            reveal_strlit("Slash");
        },
        WinitKeyCode::ShiftLeft => {
            reveal_strlit("ShiftLeft");
        },
        WinitKeyCode::ShiftRight => {
            reveal_strlit("ShiftRight");
        },
        WinitKeyCode::ControlLeft => {
            reveal_strlit("ControlLeft");
        },
        WinitKeyCode::ControlRight => {
            reveal_strlit("ControlRight");
        },
        WinitKeyCode::AltLeft => {
            reveal_strlit("AltLeft");
        },
        WinitKeyCode::AltRight => {
            reveal_strlit("AltRight");
        },
        WinitKeyCode::SuperLeft => {
            reveal_strlit("SuperLeft");
        },
        WinitKeyCode::SuperRight => {
            reveal_strlit("SuperRight");
        },
        WinitKeyCode::CapsLock => {
            reveal_strlit("CapsLock");
        },
        WinitKeyCode::NumLock => {
            reveal_strlit("NumLock");
        },
        WinitKeyCode::ScrollLock => {
            reveal_strlit("ScrollLock");
        },
        WinitKeyCode::PrintScreen => {
            reveal_strlit("PrintScreen");
        },
        WinitKeyCode::Pause => {
            reveal_strlit("Pause");
        },
        WinitKeyCode::Insert => {
            reveal_strlit("Insert");
        },
        WinitKeyCode::Delete => {
            reveal_strlit("Delete");
        },
        WinitKeyCode::Home => {
            reveal_strlit("Home");
        },
        WinitKeyCode::End => {
            reveal_strlit("End");
        },
        WinitKeyCode::PageUp => {
            reveal_strlit("PageUp");
        },
        WinitKeyCode::PageDown => {
            reveal_strlit("PageDown");
        },
        WinitKeyCode::ArrowUp => {
            reveal_strlit("ArrowUp");
        },
        WinitKeyCode::ArrowDown => {
            reveal_strlit("ArrowDown");
        },
        WinitKeyCode::ArrowLeft => {
            reveal_strlit("ArrowLeft");
        },
        WinitKeyCode::ArrowRight => {
            reveal_strlit("ArrowRight");
        },
        WinitKeyCode::Numpad0 => {
            reveal_strlit("Numpad0");
        },
        WinitKeyCode::Numpad1 => {
            reveal_strlit("Numpad1");
        },
        WinitKeyCode::Numpad2 => {
            reveal_strlit("Numpad2");
        },
        WinitKeyCode::Numpad3 => {
            reveal_strlit("Numpad3");
        },
        WinitKeyCode::Numpad4 => {
            reveal_strlit("Numpad4");
        },
        WinitKeyCode::Numpad5 => {
            reveal_strlit("Numpad5");
        },
        WinitKeyCode::Numpad6 => {
            reveal_strlit("Numpad6");
        },
        WinitKeyCode::Numpad7 => {
            reveal_strlit("Numpad7");
        },
        WinitKeyCode::Numpad8 => {
            reveal_strlit("Numpad8");
        },
        WinitKeyCode::Numpad9 => {
            reveal_strlit("Numpad9");
        },
        WinitKeyCode::NumpadAdd => {
            reveal_strlit("NumpadAdd");
        },
        WinitKeyCode::NumpadSubtract => {
            reveal_strlit("NumpadSubtract");
        },
        WinitKeyCode::NumpadMultiply => {
            reveal_strlit("NumpadMultiply");
        },
        WinitKeyCode::NumpadDivide => {
            reveal_strlit("NumpadDivide");
        },
        WinitKeyCode::NumpadDecimal => {
            reveal_strlit("NumpadDecimal");
        },
        WinitKeyCode::NumpadEnter => {
            reveal_strlit("NumpadEnter");
        },
        WinitKeyCode::F1 => {
            reveal_strlit("F1");
        },
        WinitKeyCode::F2 => {
            reveal_strlit("F2");
        },
        WinitKeyCode::F3 => {
            reveal_strlit("F3");
        },
        WinitKeyCode::F4 => {
            reveal_strlit("F4");
        },
        WinitKeyCode::F5 => {
            reveal_strlit("F5");
        },
        WinitKeyCode::F6 => {
            reveal_strlit("F6");
        },
        WinitKeyCode::F7 => {
            reveal_strlit("F7");
        },
        WinitKeyCode::F8 => {
            reveal_strlit("F8");
        },
        WinitKeyCode::F9 => {
            reveal_strlit("F9");
        },
        WinitKeyCode::F10 => {
            reveal_strlit("F10");
        },
        WinitKeyCode::F11 => {
            reveal_strlit("F11");
        },
        WinitKeyCode::F12 => {
            reveal_strlit("F12");
        },
        WinitKeyCode::F13 => {
            reveal_strlit("F13");
        },
        WinitKeyCode::F14 => {
            reveal_strlit("F14");
        },
        WinitKeyCode::F15 => {
            reveal_strlit("F15");
        },
        WinitKeyCode::F16 => {
            reveal_strlit("F16");
        },
        WinitKeyCode::F17 => {
            reveal_strlit("F17");
        },
        WinitKeyCode::F18 => {
            reveal_strlit("F18");
        },
        WinitKeyCode::F19 => {
            reveal_strlit("F19");
        },
        WinitKeyCode::F20 => {
            reveal_strlit("F20");
        },
        WinitKeyCode::F21 => {
            reveal_strlit("F21");
        },
        WinitKeyCode::F22 => {
            reveal_strlit("F22");
        },
        WinitKeyCode::F23 => {
            reveal_strlit("F23");
        },
        WinitKeyCode::F24 => {
            reveal_strlit("F24");
        },
        WinitKeyCode::Unsupported => {
            reveal_strlit("Unsupported");
        },
    }
}

proof fn lemma_gamepad_name(value: GamepadInput)
    ensures
        plain(gamepad_input_name(value)),
{
    match value {
        GamepadInput::Button(Button::South) => {
            reveal_strlit("South");
        },
        GamepadInput::Button(Button::East) => {
            reveal_strlit("East");
        },
        GamepadInput::Button(Button::North) => {
            reveal_strlit("North");
        },
        GamepadInput::Button(Button::West) => {
            reveal_strlit("West");
        },
        GamepadInput::Button(Button::C) => {
            reveal_strlit("C");
        },
        GamepadInput::Button(Button::Z) => {
            reveal_strlit("Z");
        },
        GamepadInput::Button(Button::LeftTrigger) => {
            reveal_strlit("LeftTrigger");
        },
        GamepadInput::Button(Button::LeftTrigger2) => {
            reveal_strlit("LeftTrigger2");
        },
        GamepadInput::Button(Button::RightTrigger) => {
            reveal_strlit("RightTrigger");
        },
        GamepadInput::Button(Button::RightTrigger2) => {
            reveal_strlit("RightTrigger2");
        },
        GamepadInput::Button(Button::Select) => {
            reveal_strlit("Select");
        },
        GamepadInput::Button(Button::Start) => {
            reveal_strlit("Start");
        },
        GamepadInput::Button(Button::Mode) => {
            reveal_strlit("Mode");
        },
        GamepadInput::Button(Button::LeftThumb) => {
            reveal_strlit("LeftThumb");
        },
        GamepadInput::Button(Button::RightThumb) => {
            reveal_strlit("RightThumb");
        },
        GamepadInput::Button(Button::DPadUp) => {
            reveal_strlit("DPadUp");
        },
        GamepadInput::Button(Button::DPadDown) => {
            reveal_strlit("DPadDown");
        },
        GamepadInput::Button(Button::DPadLeft) => {
            reveal_strlit("DPadLeft");
        },
        GamepadInput::Button(Button::DPadRight) => {
            reveal_strlit("DPadRight");
        },
        GamepadInput::Button(Button::Unknown) => {
            reveal_strlit("Unknown");
        },
        GamepadInput::Axis(GamepadAxisDirection::LeftStickUp) => {
            reveal_strlit("LeftStickUp");
        },
        GamepadInput::Axis(GamepadAxisDirection::LeftStickDown) => {
            reveal_strlit("LeftStickDown");
        },
        GamepadInput::Axis(GamepadAxisDirection::LeftStickLeft) => {
            reveal_strlit("LeftStickLeft");
        },
        GamepadInput::Axis(GamepadAxisDirection::LeftStickRight) => {
            reveal_strlit("LeftStickRight");
        },
        GamepadInput::Axis(GamepadAxisDirection::RightStickUp) => {
            reveal_strlit("RightStickUp");
        },
        GamepadInput::Axis(GamepadAxisDirection::RightStickDown) => {
            reveal_strlit("RightStickDown");
        },
        GamepadInput::Axis(GamepadAxisDirection::RightStickLeft) => {
            reveal_strlit("RightStickLeft");
        },
        GamepadInput::Axis(GamepadAxisDirection::RightStickRight) => {
            reveal_strlit("RightStickRight");
        },
    }
}

proof fn lemma_phone_name(value: KeyCode)
    ensures
        plain(phone_key_name(value)),
{
    match value {
        KeyCode::UP => {
            reveal_strlit("UP");
        },
        KeyCode::DOWN => {
            reveal_strlit("DOWN");
        },
        KeyCode::LEFT => {
            reveal_strlit("LEFT");
        },
        KeyCode::RIGHT => {
            reveal_strlit("RIGHT");
        },
        KeyCode::OK => {
            reveal_strlit("OK");
        },
        KeyCode::LEFT_SOFT_KEY => {
            reveal_strlit("LEFT_SOFT_KEY");
        },
        KeyCode::RIGHT_SOFT_KEY => {
            reveal_strlit("RIGHT_SOFT_KEY");
        },
        KeyCode::CLEAR => {
            reveal_strlit("CLEAR");
        },
        KeyCode::CALL => {
            reveal_strlit("CALL");
        },
        KeyCode::HANGUP => {
            reveal_strlit("HANGUP");
        },
        KeyCode::VOLUME_UP => {
            reveal_strlit("VOLUME_UP");
        },
        KeyCode::VOLUME_DOWN => {
            reveal_strlit("VOLUME_DOWN");
        },
        KeyCode::NUM0 => {
            reveal_strlit("NUM0");
        },
        KeyCode::NUM1 => {
            reveal_strlit("NUM1");
        },
        KeyCode::NUM2 => {
            reveal_strlit("NUM2");
        },
        KeyCode::NUM3 => {
            reveal_strlit("NUM3");
        },
        KeyCode::NUM4 => {
            reveal_strlit("NUM4");
        },
        KeyCode::NUM5 => {
            reveal_strlit("NUM5");
        },
        KeyCode::NUM6 => {
            reveal_strlit("NUM6");
        },
        KeyCode::NUM7 => {
            reveal_strlit("NUM7");
        },
        KeyCode::NUM8 => {
            reveal_strlit("NUM8");
        },
        KeyCode::NUM9 => {
            reveal_strlit("NUM9");
        },
        KeyCode::HASH => {
            reveal_strlit("HASH");
        },
        KeyCode::STAR => {
            reveal_strlit("STAR");
        },
    }
}

proof fn lemma_find_at(s: Seq<char>, c: char, at: int)
    requires
        0 <= at <= s.len(),
        at < s.len() ==> s[at] == c,
        forall|i: int| 0 <= i < at ==> s[i] != c,
    ensures
        find_char(s, c, 0) == at,
{
    lemma_find_char(s, c, 0);
    let found = find_char(s, c, 0);
    if found < at {
        assert(s[found] != c);
    }
}

/// Reading goes line by line.
proof fn lemma_read_line(reader: ReaderModel, text: Seq<char>, before: Seq<char>, line: Seq<char>)
    requires
        one_line(line),
        (before + line + "\n"@).is_prefix_of(text),
    ensures
        reader.read_from(text, before.len() as int) == reader.read(trimmed(line)).read_from(
            text,
            (before + line + "\n"@).len() as int,
        ),
{
    reveal_strlit("\n");
    let from = before.len() as int;
    let rest = text.skip(from);
    let whole = before + line + "\n"@;
    assert(text.take(whole.len() as int) =~= whole);
    assert forall|i: int| 0 <= i < line.len() implies rest[i] == line[i] by {
        assert(text[from + i] == whole[from + i]);
    }
    assert(rest[line.len() as int] == '\n') by {
        assert(text[from + line.len()] == whole[from + line.len()]);
    }
    lemma_find_at(rest, '\n', line.len() as int);
    assert(text.subrange(from, from + line.len()) =~= line);
}

proof fn lemma_comment_line(reader: ReaderModel, text: Seq<char>, before: Seq<char>, line: Seq<char>)
    requires
        one_line(line),
        line.len() == 0 || (line[0] == '#' && line.len() > 1 && !is_white(line.last())),
        (before + line + "\n"@).is_prefix_of(text),
    ensures
        reader.read_from(text, before.len() as int) == reader.read_from(
            text,
            (before + line + "\n"@).len() as int,
        ),
{
    lemma_read_line(reader, text, before, line);
    assert(trimmed(line) == line);
}

/// A binding line gives back the names on both sides of its `=`.
proof fn lemma_binding_parts(input: Seq<char>, key: Seq<char>)
    requires
        plain(input),
        plain(key),
    ensures
        ({
            let line = input + " = "@ + key;
            &&& one_line(line)
            &&& trimmed(line) == line
            &&& line.len() > 0
            &&& line[0] == input[0]
            &&& find_char(line, '=', 0) == input.len() + 1
            &&& find_char(line, '=', 0) < line.len()
            &&& trimmed(line.take(input.len() as int + 1)) == input
            &&& trimmed(line.skip(input.len() as int + 2)) == key
        }),
{
    reveal_strlit(" = ");
    let line = input + " = "@ + key;
    let n = input.len() as int;
    assert(forall|i: int| 0 <= i < n ==> line[i] == input[i]);
    assert(line[n] == ' ' && line[n + 1] == '=' && line[n + 2] == ' ');
    assert(forall|i: int| 0 <= i < key.len() ==> line[n + 3 + i] == key[i]);
    assert forall|i: int| 0 <= i < line.len() implies line[i] != '\n' by {
        if i < n {
            assert(!is_white(input[i]));
        } else if i >= n + 3 {
            assert(!is_white(key[i - n - 3]));
        }
    }
    assert(line.last() == key.last());
    assert(!is_white(key[key.len() - 1]));
    assert(!is_white(input[0]));
    assert(!is_white(input[n - 1]));
    assert(!is_white(key[0]));
    assert forall|i: int| 0 <= i < n + 1 implies line[i] != '=' by {
        if i < n {
            assert(input[i] != '=');
        }
    }
    lemma_find_at(line, '=', n + 1);
    let source = line.take(n + 1);
    assert(source.drop_last() =~= input);
    assert(trim_front(source) == source);
    assert(is_white(source.last()));
    assert(trim_back(source) == trim_back(input));
    assert(trim_back(input) == input);
    let target = line.skip(n + 2);
    assert(target.skip(1) =~= key);
    assert(is_white(target[0]));
    assert(trim_front(target) == trim_front(key));
    assert(trim_front(key) == key);
}

proof fn lemma_no_section(line: Seq<char>)
    requires
        line.len() > 0,
        line[0] != '[',
    ensures
        line != "[keyboard]"@,
        line != "[gamepad]"@,
{
    reveal_strlit("[keyboard]");
    reveal_strlit("[gamepad]");
}

proof fn lemma_phone_key(key: KeyCode)
    ensures
        phone_key(phone_key_name(key)) == Some(key),
{
    assert(names_phone_key(key, phone_key_name(key)));
    let chosen = choose|c: KeyCode| #[trigger] names_phone_key(c, phone_key_name(key));
    lemma_phone_names_differ(key, chosen, phone_key_name(key));
}

proof fn lemma_keyboard_binding(reader: ReaderModel, input: WinitKeyCode, key: KeyCode)
    requires
        reader.section == Section::Keyboard,
        input != WinitKeyCode::Unsupported,
    ensures
        ({
            let line = winit_key_name(input) + " = "@ + phone_key_name(key);
            &&& one_line(line)
            &&& reader.read(trimmed(line)) == (ReaderModel {
                keyboard: reader.keyboard.insert(input, key),
                ..reader
            })
        }),
{
    let line = winit_key_name(input) + " = "@ + phone_key_name(key);
    lemma_keyboard_name(input);
    lemma_phone_name(key);
    lemma_binding_parts(winit_key_name(input), phone_key_name(key));
    lemma_no_section(line);
    lemma_phone_key(key);
    let chosen = choose|c: WinitKeyCode|
        c != WinitKeyCode::Unsupported && #[trigger] winit_key_name(c) == winit_key_name(input);
    assert(winit_key_name(chosen) == winit_key_name(input));
    lemma_winit_names_differ(input, chosen);
    assert(keyboard_key(winit_key_name(input)) == Some(input));
}

proof fn lemma_gamepad_binding(reader: ReaderModel, input: GamepadInput, key: KeyCode)
    requires
        reader.section == Section::Gamepad,
        input != GamepadInput::Button(Button::Unknown),
    ensures
        ({
            let line = gamepad_input_name(input) + " = "@ + phone_key_name(key);
            &&& one_line(line)
            &&& reader.read(trimmed(line)) == (ReaderModel {
                gamepad: reader.gamepad.insert(input, key),
                ..reader
            })
        }),
{
    let line = gamepad_input_name(input) + " = "@ + phone_key_name(key);
    lemma_gamepad_name(input);
    lemma_phone_name(key);
    lemma_binding_parts(gamepad_input_name(input), phone_key_name(key));
    lemma_no_section(line);
    lemma_phone_key(key);
    let chosen = choose|c: GamepadInput|
        c != GamepadInput::Button(Button::Unknown) && #[trigger] gamepad_input_name(c)
            == gamepad_input_name(input);
    assert(gamepad_input_name(chosen) == gamepad_input_name(input));
    lemma_gamepad_names_differ(input, chosen);
    assert(gamepad_input(gamepad_input_name(input)) == Some(input));
}

proof fn lemma_keyboard_lines_grow(n: int, m: int)
    requires
        0 <= n <= m,
    ensures
        keyboard_lines(n).is_prefix_of(keyboard_lines(m)),
    decreases m - n,
{
    if n < m {
        lemma_keyboard_lines_grow(n, m - 1);
    }
}

proof fn lemma_gamepad_lines_grow(n: int, m: int)
    requires
        0 <= n <= m,
    ensures
        gamepad_lines(n).is_prefix_of(gamepad_lines(m)),
    decreases m - n,
{
    if n < m {
        lemma_gamepad_lines_grow(n, m - 1);
    }
}

/// All keyboard lines of a text read, where `before` stands before them.
proof fn lemma_read_keyboard(reader: ReaderModel, text: Seq<char>, before: Seq<char>, n: int)
    requires
        0 <= n <= 24,
        reader.section == Section::Keyboard,
        reader.keyboard == Map::<WinitKeyCode, KeyCode>::empty(),
        (before + keyboard_lines(24)).is_prefix_of(text),
    ensures
        reader.read_from(text, before.len() as int) == (ReaderModel {
            keyboard: bindings_of(DEFAULT_KEYBOARD_MAP@.take(n)),
            ..reader
        }).read_from(text, (before + keyboard_lines(n)).len() as int),
    decreases n,
{
    if n == 0 {
        assert(DEFAULT_KEYBOARD_MAP@.take(0) =~= Seq::<(WinitKeyCode, KeyCode)>::empty());
        assert(before + keyboard_lines(0) =~= before);
    } else {
        lemma_read_keyboard(reader, text, before, n - 1);
        let (input, key) = DEFAULT_KEYBOARD_MAP@[n - 1];
        let done = ReaderModel {
            keyboard: bindings_of(DEFAULT_KEYBOARD_MAP@.take(n - 1)),
            ..reader
        };
        let prefix = before + keyboard_lines(n - 1);
        let line = winit_key_name(input) + " = "@ + phone_key_name(key);
        lemma_keyboard_lines_grow(n, 24);
        assert(prefix + line + "\n"@ =~= before + keyboard_lines(n));
        let all = before + keyboard_lines(24);
        assert((prefix + line + "\n"@).is_prefix_of(text)) by {
            assert(all.take((before + keyboard_lines(n)).len() as int) =~= before + keyboard_lines(n));
            assert(text.take((before + keyboard_lines(n)).len() as int) =~= all.take(
                (before + keyboard_lines(n)).len() as int,
            ));
        }
        lemma_keyboard_binding(done, input, key);
        lemma_read_line(done, text, prefix, line);
        assert(DEFAULT_KEYBOARD_MAP@.take(n).drop_last() =~= DEFAULT_KEYBOARD_MAP@.take(n - 1));
    }
}

/// All gamepad lines of a text read, where `before` stands before them.
proof fn lemma_read_gamepad(reader: ReaderModel, text: Seq<char>, before: Seq<char>, n: int)
    requires
        0 <= n <= 17,
        reader.section == Section::Gamepad,
        reader.gamepad == Map::<GamepadInput, KeyCode>::empty(),
        (before + gamepad_lines(17)).is_prefix_of(text),
    ensures
        reader.read_from(text, before.len() as int) == (ReaderModel {
            gamepad: bindings_of(gamepad_defaults().take(n)),
            ..reader
        }).read_from(text, (before + gamepad_lines(n)).len() as int),
    decreases n,
{
    if n == 0 {
        assert(gamepad_defaults().take(0) =~= Seq::<(GamepadInput, KeyCode)>::empty());
        assert(before + gamepad_lines(0) =~= before);
    } else {
        lemma_read_gamepad(reader, text, before, n - 1);
        let (input, key) = gamepad_defaults()[n - 1];
        let done = ReaderModel { gamepad: bindings_of(gamepad_defaults().take(n - 1)), ..reader };
        let prefix = before + gamepad_lines(n - 1);
        let line = gamepad_input_name(input) + " = "@ + phone_key_name(key);
        lemma_gamepad_lines_grow(n, 17);
        assert(prefix + line + "\n"@ =~= before + gamepad_lines(n));
        let all = before + gamepad_lines(17);
        assert((prefix + line + "\n"@).is_prefix_of(text)) by {
            assert(all.take((before + gamepad_lines(n)).len() as int) =~= before + gamepad_lines(n));
            assert(text.take((before + gamepad_lines(n)).len() as int) =~= all.take(
                (before + gamepad_lines(n)).len() as int,
            ));
        }
        lemma_gamepad_binding(done, input, key);
        lemma_read_line(done, text, prefix, line);
        assert(gamepad_defaults().take(n).drop_last() =~= gamepad_defaults().take(n - 1));
    }
}

/// The comment at the top is read over.
proof fn lemma_read_header(reader: ReaderModel, text: Seq<char>)
    requires
        header_text().is_prefix_of(text),
    ensures
        reader.read_from(text, 0) == reader.read_from(text, header_text().len() as int),
{
    let l1 = "# Available mobile key names:"@;
    let l2 = "# "@ + AVAILABLE_PHONE_KEY_NAMES@;
    let l3 = "# Keyboard values use Winit physical key names."@;
    let l4 = "# Gamepad values use GilRs button names plus axis directions."@;
    let l5 =
        "# Axis names: LeftStickUp LeftStickDown LeftStickLeft LeftStickRight RightStickUp RightStickDown RightStickLeft RightStickRight"@;
    let none = Seq::<char>::empty();
    let p1 = none + l1 + "\n"@;
    let p2 = p1 + l2 + "\n"@;
    let p3 = p2 + l3 + "\n"@;
    let p4 = p3 + l4 + "\n"@;
    let p5 = p4 + l5 + "\n"@;
    let p6 = p5 + none + "\n"@;
    assert(p6 =~= header_text());
    assert(p5.is_prefix_of(text) && p4.is_prefix_of(text) && p3.is_prefix_of(text)
        && p2.is_prefix_of(text) && p1.is_prefix_of(text)) by {
        let h = header_text();
        assert(text.take(p5.len() as int) =~= h.take(p5.len() as int));
        assert(text.take(p4.len() as int) =~= h.take(p4.len() as int));
        assert(text.take(p3.len() as int) =~= h.take(p3.len() as int));
        assert(text.take(p2.len() as int) =~= h.take(p2.len() as int));
        assert(text.take(p1.len() as int) =~= h.take(p1.len() as int));
        assert(h.take(p5.len() as int) =~= p5);
        assert(h.take(p4.len() as int) =~= p4);
        assert(h.take(p3.len() as int) =~= p3);
        assert(h.take(p2.len() as int) =~= p2);
        assert(h.take(p1.len() as int) =~= p1);
    }
    lemma_header_lines();
    lemma_comment_line(reader, text, none, l1);
    lemma_comment_line(reader, text, p1, l2);
    lemma_comment_line(reader, text, p2, l3);
    lemma_comment_line(reader, text, p3, l4);
    lemma_comment_line(reader, text, p4, l5);
    lemma_comment_line(reader, text, p5, none);
}

spec fn is_comment(line: Seq<char>) -> bool {
    one_line(line) && line.len() > 1 && line[0] == '#' && !is_white(line.last())
}

proof fn lemma_header_lines()
    ensures
        is_comment("# Available mobile key names:"@),
        is_comment("# "@ + AVAILABLE_PHONE_KEY_NAMES@),
        is_comment("# Keyboard values use Winit physical key names."@),
        is_comment("# Gamepad values use GilRs button names plus axis directions."@),
        is_comment(
            "# Axis names: LeftStickUp LeftStickDown LeftStickLeft LeftStickRight RightStickUp RightStickDown RightStickLeft RightStickRight"@,
        ),
{
    lemma_header_line_1();
    lemma_header_line_2();
    lemma_header_line_3();
    lemma_header_line_4();
    lemma_header_line_5();
}

proof fn lemma_header_line_1()
    ensures
        is_comment("# Available mobile key names:"@),
{
    reveal_strlit("# Available mobile key names:");
}

proof fn lemma_header_line_2()
    ensures
        is_comment("# "@ + AVAILABLE_PHONE_KEY_NAMES@),
{
    let names =
        "UP DOWN LEFT RIGHT OK LEFT_SOFT_KEY RIGHT_SOFT_KEY CLEAR CALL HANGUP VOLUME_UP VOLUME_DOWN NUM0 NUM1 NUM2 NUM3 NUM4 NUM5 NUM6 NUM7 NUM8 NUM9 HASH STAR"@;
    assert(one_line(names) && names.len() > 0 && !is_white(names.last())) by {
        reveal_strlit(
            "UP DOWN LEFT RIGHT OK LEFT_SOFT_KEY RIGHT_SOFT_KEY CLEAR CALL HANGUP VOLUME_UP VOLUME_DOWN NUM0 NUM1 NUM2 NUM3 NUM4 NUM5 NUM6 NUM7 NUM8 NUM9 HASH STAR",
        );
    }
    reveal_strlit("# ");
    let line = "# "@ + names;
    assert(line.last() == names.last());
    assert forall|i: int| 0 <= i < line.len() implies line[i] != '\n' by {
        if i >= 2 {
            assert(line[i] == names[i - 2]);
        }
    }
}

proof fn lemma_header_line_3()
    ensures
        is_comment("# Keyboard values use Winit physical key names."@),
{
    reveal_strlit("# Keyboard values use Winit physical key names.");
}

proof fn lemma_header_line_4()
    ensures
        is_comment("# Gamepad values use GilRs button names plus axis directions."@),
{
    reveal_strlit("# Gamepad values use GilRs button names plus axis directions.");
}

proof fn lemma_header_line_5()
    ensures
        is_comment(
            "# Axis names: LeftStickUp LeftStickDown LeftStickLeft LeftStickRight RightStickUp RightStickDown RightStickLeft RightStickRight"@,
        ),
{
    reveal_strlit(
        "# Axis names: LeftStickUp LeftStickDown LeftStickLeft LeftStickRight RightStickUp RightStickDown RightStickLeft RightStickRight",
    );
}

proof fn lemma_section_line(reader: ReaderModel, text: Seq<char>, before: Seq<char>, line: Seq<char>)
    requires
        line == "[keyboard]"@ || line == "[gamepad]"@,
        (before + line + "\n"@).is_prefix_of(text),
    ensures
        reader.read_from(text, before.len() as int) == (ReaderModel {
            section: if line == "[keyboard]"@ {
                Section::Keyboard
            } else {
                Section::Gamepad
            },
            ..reader
        }).read_from(text, (before + line + "\n"@).len() as int),
{
    reveal_strlit("[keyboard]");
    reveal_strlit("[gamepad]");
    lemma_read_line(reader, text, before, line);
    assert(trimmed(line) == line);
}

/// All that follows the comment is a section with the keyboard bindings and one
/// with the gamepad bindings.
proof fn lemma_read_default_text()
    ensures
        unread().read_from(default_text(), 0) == (ReaderModel {
            section: Section::Gamepad,
            keyboard: bindings_of(DEFAULT_KEYBOARD_MAP@),
            gamepad: bindings_of(gamepad_defaults()),
        }),
{
    let text = default_text();
    let none = Seq::<char>::empty();
    let p0 = header_text();
    let p1 = p0 + "[keyboard]"@ + "\n"@;
    let p2 = p1 + keyboard_lines(24);
    let p3 = p2 + none + "\n"@;
    let p4 = p3 + "[gamepad]"@ + "\n"@;
    assert(p4 + gamepad_lines(17) =~= text);
    assert(p0.is_prefix_of(text) && p1.is_prefix_of(text) && p2.is_prefix_of(text)
        && p3.is_prefix_of(text) && p4.is_prefix_of(text)) by {
        assert(text.take(p0.len() as int) =~= p0);
        assert(text.take(p1.len() as int) =~= p1);
        assert(text.take(p2.len() as int) =~= p2);
        assert(text.take(p3.len() as int) =~= p3);
        assert(text.take(p4.len() as int) =~= p4);
    }
    assert(DEFAULT_KEYBOARD_MAP@.take(24) =~= DEFAULT_KEYBOARD_MAP@);
    assert(gamepad_defaults().take(17) =~= gamepad_defaults());
    let r0 = unread();
    let r1 = ReaderModel { section: Section::Keyboard, ..r0 };
    let r2 = ReaderModel { keyboard: bindings_of(DEFAULT_KEYBOARD_MAP@), ..r1 };
    let r3 = ReaderModel { section: Section::Gamepad, ..r2 };
    lemma_read_header(r0, text);
    lemma_section_line(r0, text, p0, "[keyboard]"@);
    assert("[keyboard]"@ != "[gamepad]"@) by {
        reveal_strlit("[keyboard]");
        reveal_strlit("[gamepad]");
    }
    lemma_read_keyboard(r1, text, p1, 24);
    lemma_comment_line(r2, text, p2, none);
    lemma_section_line(r2, text, p3, "[gamepad]"@);
    assert((p4 + gamepad_lines(17)).is_prefix_of(text));
    lemma_read_gamepad(r3, text, p4, 17);
}

/// Defaults that are all bound already add nothing.
proof fn lemma_completed_again<K>(bindings: Map<K, KeyCode>, defaults: Seq<(K, KeyCode)>)
    requires
        forall|i: int| 0 <= i < defaults.len() ==> bindings.contains_key(#[trigger] defaults[i].0),
    ensures
        completed(bindings, defaults) == bindings,
    decreases defaults.len(),
{
    if defaults.len() > 0 {
        let init = defaults.drop_last();
        assert forall|i: int| 0 <= i < init.len() implies bindings.contains_key(
            #[trigger] init[i].0,
        ) by {
            assert(init[i] == defaults[i]);
        }
        lemma_completed_again(bindings, init);
        assert(bindings.contains_key(defaults[defaults.len() - 1].0));
    }
}

proof fn lemma_bound<K>(entries: Seq<(K, KeyCode)>, i: int)
    requires
        0 <= i < entries.len(),
    ensures
        bindings_of(entries).contains_key(entries[i].0),
    decreases entries.len(),
{
    if i < entries.len() - 1 {
        lemma_bound(entries.drop_last(), i);
        assert(entries.drop_last()[i] == entries[i]);
    }
}

/// The file that is written where there is none reads back as the bindings that
/// were in force when it was written.
pub proof fn lemma_default_text_reads_back()
    ensures
        completed(unread().read_from(default_text(), 0).keyboard, DEFAULT_KEYBOARD_MAP@)
            == bindings_of(DEFAULT_KEYBOARD_MAP@),
        completed(unread().read_from(default_text(), 0).gamepad, gamepad_defaults())
            == bindings_of(gamepad_defaults()),
{
    lemma_read_default_text();
    let keyboard = DEFAULT_KEYBOARD_MAP@;
    let gamepad = gamepad_defaults();
    assert forall|i: int| 0 <= i < keyboard.len() implies bindings_of(keyboard).contains_key(
        #[trigger] keyboard[i].0,
    ) by {
        lemma_bound(keyboard, i);
    }
    assert forall|i: int| 0 <= i < gamepad.len() implies bindings_of(gamepad).contains_key(
        #[trigger] gamepad[i].0,
    ) by {
        lemma_bound(gamepad, i);
    }
    lemma_completed_again(bindings_of(keyboard), keyboard);
    lemma_completed_again(bindings_of(gamepad), gamepad);
}

// ---------------------------------------------------------------------------
// What a line of a file does

/// In the keyboard's section a line with the name of a key, `=` and the name of a phone
/// key binds the one to the other, and touches nothing else. The gamepad's section does
/// the same for its inputs, and outside the sections the line does nothing.
pub proof fn lemma_line_binds_its_input(
    reader: ReaderModel,
    key: WinitKeyCode,
    input: GamepadInput,
    phone: KeyCode,
)
    requires
        key != WinitKeyCode::Unsupported,
        input != GamepadInput::Button(Button::Unknown),
    ensures
        ({
            let line = winit_key_name(key) + " = "@ + phone_key_name(phone);
            let after = reader.read(trimmed(line));
            reader.section == Section::Keyboard ==> {
                &&& after.keyboard == reader.keyboard.insert(key, phone)
                &&& after.gamepad == reader.gamepad
                &&& after.section == Section::Keyboard
            }
        }),
        ({
            let line = gamepad_input_name(input) + " = "@ + phone_key_name(phone);
            let after = reader.read(trimmed(line));
            reader.section == Section::Gamepad ==> {
                &&& after.gamepad == reader.gamepad.insert(input, phone)
                &&& after.keyboard == reader.keyboard
                &&& after.section == Section::Gamepad
            }
        }),
        ({
            let line = winit_key_name(key) + " = "@ + phone_key_name(phone);
            reader.section == Section::Outside ==> reader.read(trimmed(line)) == reader
        }),
{
    if reader.section == Section::Keyboard {
        lemma_keyboard_binding(reader, key, phone);
    }
    if reader.section == Section::Gamepad {
        lemma_gamepad_binding(reader, input, phone);
    }
    let line = winit_key_name(key) + " = "@ + phone_key_name(phone);
    lemma_keyboard_name(key);
    lemma_phone_name(phone);
    lemma_binding_parts(winit_key_name(key), phone_key_name(phone));
    lemma_no_section(line);
}

/// The headings open their sections; a comment, and a line without `=`, do nothing.
pub proof fn lemma_other_lines(reader: ReaderModel, line: Seq<char>)
    ensures
        reader.read("[keyboard]"@) == (ReaderModel { section: Section::Keyboard, ..reader }),
        reader.read("[gamepad]"@) == (ReaderModel { section: Section::Gamepad, ..reader }),
        line.len() == 0 || line[0] == '#' || line[0] == ';' ==> reader.read(line) == reader,
        !line.contains('=') && line != "[keyboard]"@ && line != "[gamepad]"@ ==> reader.read(line)
            == reader,
{
    reveal_strlit("[keyboard]");
    reveal_strlit("[gamepad]");
    assert("[keyboard]"@[1] == 'k' && "[gamepad]"@[1] == 'g');
    if !line.contains('=') {
        lemma_find_char(line, '=', 0);
        let at = find_char(line, '=', 0);
        if at < line.len() {
            assert(line.contains(line[at]));
        }
    }
}

/// A phone key is known by its name and by its other name.
pub proof fn lemma_names_of_phone_keys(key: KeyCode, name: Seq<char>)
    requires
        names_phone_key(key, name),
    ensures
        phone_key(name) == Some(key),
        phone_key(phone_key_name(key)) == Some(key),
{
    lemma_phone_key(key);
    let chosen = choose|c: KeyCode| #[trigger] names_phone_key(c, name);
    lemma_phone_names_differ(key, chosen, name);
}

/// Of several bindings of one input in a list the last one counts, and an input that no
/// binding names is not bound.
pub proof fn lemma_last_binding_counts<K>(entries: Seq<(K, KeyCode)>, at: int, input: K)
    requires
        -1 <= at,
        forall|i: int| at < i < entries.len() ==> (#[trigger] entries[i]).0 != input,
    ensures
        0 <= at < entries.len() && entries[at].0 == input ==> bindings_of(entries).contains_key(input)
            && bindings_of(entries)[input] == entries[at].1,
        at < 0 ==> !bindings_of(entries).contains_key(input),
    decreases entries.len(),
{
    if entries.len() > 0 {
        let init = entries.drop_last();
        if at < entries.len() - 1 {
            assert(entries[entries.len() - 1].0 != input);
            assert forall|i: int| at < i < init.len() implies (#[trigger] init[i]).0 != input by {
                assert(init[i] == entries[i]);
            }
            lemma_last_binding_counts(init, at, input);
        }
    }
}

/// An input that the file leaves alone is bound as the first default that names it says.
pub proof fn lemma_default_fills_the_gap<K>(
    bindings: Map<K, KeyCode>,
    defaults: Seq<(K, KeyCode)>,
    at: int,
)
    requires
        0 <= at < defaults.len(),
        !bindings.contains_key(defaults[at].0),
        forall|i: int| 0 <= i < at ==> (#[trigger] defaults[i]).0 != defaults[at].0,
    ensures
        completed(bindings, defaults).contains_key(defaults[at].0),
        completed(bindings, defaults)[defaults[at].0] == defaults[at].1,
    decreases defaults.len(),
{
    let init = defaults.drop_last();
    if at < defaults.len() - 1 {
        assert(init[at] == defaults[at]);
        assert forall|i: int| 0 <= i < at implies (#[trigger] init[i]).0 != init[at].0 by {
            assert(init[i] == defaults[i]);
        }
        lemma_default_fills_the_gap(bindings, init, at);
    } else {
        assert forall|i: int| 0 <= i < init.len() implies (#[trigger] init[i]).0 != defaults[at].0 by {
            assert(init[i] == defaults[i]);
        }
        lemma_not_completed(bindings, init, defaults[at].0);
    }
}

proof fn lemma_not_completed<K>(bindings: Map<K, KeyCode>, defaults: Seq<(K, KeyCode)>, input: K)
    requires
        !bindings.contains_key(input),
        forall|i: int| 0 <= i < defaults.len() ==> (#[trigger] defaults[i]).0 != input,
    ensures
        !completed(bindings, defaults).contains_key(input),
    decreases defaults.len(),
{
    if defaults.len() > 0 {
        let init = defaults.drop_last();
        assert(defaults[defaults.len() - 1].0 != input);
        assert forall|i: int| 0 <= i < init.len() implies (#[trigger] init[i]).0 != input by {
            assert(init[i] == defaults[i]);
        }
        lemma_not_completed(bindings, init, input);
    }
}

/// The input is bound to the key by default.
pub open spec fn is_bound<K>(entries: Seq<(K, KeyCode)>, input: K, key: KeyCode) -> bool {
    bindings_of(entries).contains_key(input) && bindings_of(entries)[input] == key
}

/// The keyboard is laid out by default as the keys of a phone: three columns of digits,
/// the arrows for the directions, and the rest around them.
pub proof fn lemma_keyboard_is_laid_out_as_a_phone()
    ensures
        is_bound(DEFAULT_KEYBOARD_MAP@, WinitKeyCode::Digit1, KeyCode::NUM1),
        is_bound(DEFAULT_KEYBOARD_MAP@, WinitKeyCode::Digit2, KeyCode::NUM2),
        is_bound(DEFAULT_KEYBOARD_MAP@, WinitKeyCode::Digit3, KeyCode::NUM3),
        is_bound(DEFAULT_KEYBOARD_MAP@, WinitKeyCode::KeyQ, KeyCode::NUM4),
        is_bound(DEFAULT_KEYBOARD_MAP@, WinitKeyCode::KeyW, KeyCode::NUM5),
        is_bound(DEFAULT_KEYBOARD_MAP@, WinitKeyCode::KeyE, KeyCode::NUM6),
        is_bound(DEFAULT_KEYBOARD_MAP@, WinitKeyCode::KeyA, KeyCode::NUM7),
        is_bound(DEFAULT_KEYBOARD_MAP@, WinitKeyCode::KeyS, KeyCode::NUM8),
        is_bound(DEFAULT_KEYBOARD_MAP@, WinitKeyCode::KeyD, KeyCode::NUM9),
        is_bound(DEFAULT_KEYBOARD_MAP@, WinitKeyCode::KeyZ, KeyCode::STAR),
        is_bound(DEFAULT_KEYBOARD_MAP@, WinitKeyCode::KeyX, KeyCode::NUM0),
        is_bound(DEFAULT_KEYBOARD_MAP@, WinitKeyCode::KeyC, KeyCode::HASH),
        is_bound(DEFAULT_KEYBOARD_MAP@, WinitKeyCode::Space, KeyCode::OK),
        is_bound(DEFAULT_KEYBOARD_MAP@, WinitKeyCode::ArrowUp, KeyCode::UP),
        is_bound(DEFAULT_KEYBOARD_MAP@, WinitKeyCode::ArrowDown, KeyCode::DOWN),
        is_bound(DEFAULT_KEYBOARD_MAP@, WinitKeyCode::ArrowLeft, KeyCode::LEFT),
        is_bound(DEFAULT_KEYBOARD_MAP@, WinitKeyCode::ArrowRight, KeyCode::RIGHT),
        is_bound(DEFAULT_KEYBOARD_MAP@, WinitKeyCode::Backspace, KeyCode::CLEAR),
        is_bound(DEFAULT_KEYBOARD_MAP@, WinitKeyCode::ShiftLeft, KeyCode::LEFT_SOFT_KEY),
        is_bound(DEFAULT_KEYBOARD_MAP@, WinitKeyCode::ShiftRight, KeyCode::RIGHT_SOFT_KEY),
        is_bound(DEFAULT_KEYBOARD_MAP@, WinitKeyCode::Backquote, KeyCode::VOLUME_UP),
        is_bound(DEFAULT_KEYBOARD_MAP@, WinitKeyCode::Tab, KeyCode::VOLUME_DOWN),
        is_bound(DEFAULT_KEYBOARD_MAP@, WinitKeyCode::F1, KeyCode::CALL),
        is_bound(DEFAULT_KEYBOARD_MAP@, WinitKeyCode::F2, KeyCode::HANGUP),
{
    let map = DEFAULT_KEYBOARD_MAP@;
    lemma_last_binding_counts(map, 0, WinitKeyCode::Digit1);
    lemma_last_binding_counts(map, 1, WinitKeyCode::Digit2);
    lemma_last_binding_counts(map, 2, WinitKeyCode::Digit3);
    lemma_last_binding_counts(map, 3, WinitKeyCode::KeyQ);
    lemma_last_binding_counts(map, 4, WinitKeyCode::KeyW);
    lemma_last_binding_counts(map, 5, WinitKeyCode::KeyE);
    lemma_last_binding_counts(map, 6, WinitKeyCode::KeyA);
    lemma_last_binding_counts(map, 7, WinitKeyCode::KeyS);
    lemma_last_binding_counts(map, 8, WinitKeyCode::KeyD);
    lemma_last_binding_counts(map, 9, WinitKeyCode::KeyZ);
    lemma_last_binding_counts(map, 10, WinitKeyCode::KeyX);
    lemma_last_binding_counts(map, 11, WinitKeyCode::KeyC);
    lemma_last_binding_counts(map, 12, WinitKeyCode::Space);
    lemma_last_binding_counts(map, 13, WinitKeyCode::ArrowUp);
    lemma_last_binding_counts(map, 14, WinitKeyCode::ArrowDown);
    lemma_last_binding_counts(map, 15, WinitKeyCode::ArrowLeft);
    lemma_last_binding_counts(map, 16, WinitKeyCode::ArrowRight);
    lemma_last_binding_counts(map, 17, WinitKeyCode::Backspace);
    lemma_last_binding_counts(map, 18, WinitKeyCode::ShiftLeft);
    lemma_last_binding_counts(map, 19, WinitKeyCode::ShiftRight);
    lemma_last_binding_counts(map, 20, WinitKeyCode::Backquote);
    lemma_last_binding_counts(map, 21, WinitKeyCode::Tab);
    lemma_last_binding_counts(map, 22, WinitKeyCode::F1);
    lemma_last_binding_counts(map, 23, WinitKeyCode::F2);
}

/// The cross of a gamepad is by default the cross of digits round 5, its left stick the
/// directions, with its axis upside down, and its buttons the keys around them.
pub proof fn lemma_gamepad_is_laid_out_as_a_phone()
    ensures
        is_bound(gamepad_defaults(), GamepadInput::Button(Button::South), KeyCode::OK),
        is_bound(gamepad_defaults(), GamepadInput::Button(Button::East), KeyCode::CLEAR),
        is_bound(gamepad_defaults(), GamepadInput::Button(Button::West), KeyCode::NUM7),
        is_bound(gamepad_defaults(), GamepadInput::Button(Button::North), KeyCode::NUM9),
        is_bound(gamepad_defaults(), GamepadInput::Button(Button::DPadUp), KeyCode::NUM2),
        is_bound(gamepad_defaults(), GamepadInput::Button(Button::DPadDown), KeyCode::NUM8),
        is_bound(gamepad_defaults(), GamepadInput::Button(Button::DPadLeft), KeyCode::NUM4),
        is_bound(gamepad_defaults(), GamepadInput::Button(Button::DPadRight), KeyCode::NUM6),
        is_bound(gamepad_defaults(), GamepadInput::Button(Button::LeftTrigger), KeyCode::STAR),
        is_bound(gamepad_defaults(), GamepadInput::Button(Button::RightTrigger), KeyCode::HASH),
        is_bound(gamepad_defaults(), GamepadInput::Button(Button::LeftTrigger2), KeyCode::NUM1),
        is_bound(gamepad_defaults(), GamepadInput::Button(Button::RightTrigger2), KeyCode::NUM3),
        is_bound(gamepad_defaults(), GamepadInput::Button(Button::Start), KeyCode::NUM0),
        is_bound(gamepad_defaults(), GamepadInput::Axis(GamepadAxisDirection::LeftStickUp), KeyCode::DOWN),
        is_bound(gamepad_defaults(), GamepadInput::Axis(GamepadAxisDirection::LeftStickDown), KeyCode::UP),
        is_bound(gamepad_defaults(), GamepadInput::Axis(GamepadAxisDirection::LeftStickLeft), KeyCode::LEFT),
        is_bound(gamepad_defaults(), GamepadInput::Axis(GamepadAxisDirection::LeftStickRight), KeyCode::RIGHT),
{
    let map = gamepad_defaults();
    lemma_last_binding_counts(map, 0, GamepadInput::Button(Button::South));
    lemma_last_binding_counts(map, 1, GamepadInput::Button(Button::East));
    lemma_last_binding_counts(map, 2, GamepadInput::Button(Button::West));
    lemma_last_binding_counts(map, 3, GamepadInput::Button(Button::North));
    lemma_last_binding_counts(map, 4, GamepadInput::Button(Button::DPadUp));
    lemma_last_binding_counts(map, 5, GamepadInput::Button(Button::DPadDown));
    lemma_last_binding_counts(map, 6, GamepadInput::Button(Button::DPadLeft));
    lemma_last_binding_counts(map, 7, GamepadInput::Button(Button::DPadRight));
    lemma_last_binding_counts(map, 8, GamepadInput::Button(Button::LeftTrigger));
    lemma_last_binding_counts(map, 9, GamepadInput::Button(Button::RightTrigger));
    lemma_last_binding_counts(map, 10, GamepadInput::Button(Button::LeftTrigger2));
    lemma_last_binding_counts(map, 11, GamepadInput::Button(Button::RightTrigger2));
    lemma_last_binding_counts(map, 12, GamepadInput::Button(Button::Start));
    lemma_last_binding_counts(map, 13, GamepadInput::Axis(GamepadAxisDirection::LeftStickUp));
    lemma_last_binding_counts(map, 14, GamepadInput::Axis(GamepadAxisDirection::LeftStickDown));
    lemma_last_binding_counts(map, 15, GamepadInput::Axis(GamepadAxisDirection::LeftStickLeft));
    lemma_last_binding_counts(map, 16, GamepadInput::Axis(GamepadAxisDirection::LeftStickRight));
}

} // verus!
