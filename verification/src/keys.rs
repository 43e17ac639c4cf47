//! The keys of a keyboard, a gamepad and a phone, and the names that a
//! configuration file has for them.

use vstd::prelude::*;

use crate::text::same_text;

verus! {

use crate::text::decimal;

/// The keys of the phone.
#[allow(non_camel_case_types)]
#[derive(Clone, Copy, Debug, PartialEq, Eq, Hash, PartialOrd, Ord, Structural)]
pub enum KeyCode {
    UP,
    DOWN,
    LEFT,
    RIGHT,
    OK,
    LEFT_SOFT_KEY,
    RIGHT_SOFT_KEY,
    CLEAR,
    CALL,
    HANGUP,
    VOLUME_UP,
    VOLUME_DOWN,
    NUM0,
    NUM1,
    NUM2,
    NUM3,
    NUM4,
    NUM5,
    NUM6,
    NUM7,
    NUM8,
    NUM9,
    HASH,
    STAR,
}

/// A physical key of the keyboard. Keys that have no name in a configuration file
/// are all `Unsupported`.
#[derive(Clone, Copy, Debug, PartialEq, Eq, Hash, Structural)]
pub enum WinitKeyCode {
    KeyA,
    KeyB,
    KeyC,
    KeyD,
    KeyE,
    KeyF,
    KeyG,
    KeyH,
    KeyI,
    KeyJ,
    KeyK,
    KeyL,
    KeyM,
    KeyN,
    KeyO,
    KeyP,
    KeyQ,
    KeyR,
    KeyS,
    KeyT,
    KeyU,
    KeyV,
    KeyW,
    KeyX,
    KeyY,
    KeyZ,
    Digit0,
    Digit1,
    Digit2,
    Digit3,
    Digit4,
    Digit5,
    Digit6,
    Digit7,
    Digit8,
    Digit9,
    Space,
    Tab,
    Enter,
    Escape,
    Backspace,
    Backquote,
    Minus,
    Equal,
    BracketLeft,
    BracketRight,
    Backslash,
    Semicolon,
    Quote,
    Comma,
    Period,
    Slash,
    ShiftLeft,
    ShiftRight,
    ControlLeft,
    ControlRight,
    AltLeft,
    AltRight,
    SuperLeft,
    SuperRight,
    CapsLock,
    NumLock,
    ScrollLock,
    PrintScreen,
    Pause,
    Insert,
    Delete,
    Home,
    End,
    PageUp,
    PageDown,
    ArrowUp,
    ArrowDown,
    ArrowLeft,
    ArrowRight,
    Numpad0,
    Numpad1,
    Numpad2,
    Numpad3,
    Numpad4,
    Numpad5,
    Numpad6,
    Numpad7,
    Numpad8,
    Numpad9,
    NumpadAdd,
    NumpadSubtract,
    NumpadMultiply,
    NumpadDivide,
    NumpadDecimal,
    NumpadEnter,
    F1,
    F2,
    F3,
    F4,
    F5,
    F6,
    F7,
    F8,
    F9,
    F10,
    F11,
    F12,
    F13,
    F14,
    F15,
    F16,
    F17,
    F18,
    F19,
    F20,
    F21,
    F22,
    F23,
    F24,
    Unsupported,
}

/// A button of the gamepad.
#[derive(Clone, Copy, Debug, PartialEq, Eq, Hash, Structural)]
pub enum Button {
    South,
    East,
    North,
    West,
    C,
    Z,
    LeftTrigger,
    LeftTrigger2,
    RightTrigger,
    RightTrigger2,
    Select,
    Start,
    Mode,
    LeftThumb,
    RightThumb,
    DPadUp,
    DPadDown,
    DPadLeft,
    DPadRight,
    Unknown,
}

/// A stick of the gamepad moved far enough in one direction.
#[derive(Clone, Copy, Debug, PartialEq, Eq, Hash, Structural)]
pub enum GamepadAxisDirection {
    LeftStickUp,
    LeftStickDown,
    LeftStickLeft,
    LeftStickRight,
    RightStickUp,
    RightStickDown,
    RightStickLeft,
    RightStickRight,
}

#[derive(Clone, Copy, Debug, PartialEq, Eq, Hash, Structural)]
pub enum GamepadInput {
    Button(Button),
    Axis(GamepadAxisDirection),
}

/// The name of a keyboard key.
pub open spec fn winit_key_name(value: WinitKeyCode) -> Seq<char> {
    match value {
        WinitKeyCode::KeyA => "KeyA"@,
        WinitKeyCode::KeyB => "KeyB"@,
        WinitKeyCode::KeyC => "KeyC"@,
        WinitKeyCode::KeyD => "KeyD"@,
        WinitKeyCode::KeyE => "KeyE"@,
        WinitKeyCode::KeyF => "KeyF"@,
        WinitKeyCode::KeyG => "KeyG"@,
        WinitKeyCode::KeyH => "KeyH"@,
        WinitKeyCode::KeyI => "KeyI"@,
        WinitKeyCode::KeyJ => "KeyJ"@,
        WinitKeyCode::KeyK => "KeyK"@,
        WinitKeyCode::KeyL => "KeyL"@,
        WinitKeyCode::KeyM => "KeyM"@,
        WinitKeyCode::KeyN => "KeyN"@,
        WinitKeyCode::KeyO => "KeyO"@,
        WinitKeyCode::KeyP => "KeyP"@,
        WinitKeyCode::KeyQ => "KeyQ"@,
        WinitKeyCode::KeyR => "KeyR"@,
        WinitKeyCode::KeyS => "KeyS"@,
        WinitKeyCode::KeyT => "KeyT"@,
        WinitKeyCode::KeyU => "KeyU"@,
        WinitKeyCode::KeyV => "KeyV"@,
        WinitKeyCode::KeyW => "KeyW"@,
        WinitKeyCode::KeyX => "KeyX"@,
        WinitKeyCode::KeyY => "KeyY"@,
        WinitKeyCode::KeyZ => "KeyZ"@,
        WinitKeyCode::Digit0 => "Digit0"@,
        WinitKeyCode::Digit1 => "Digit1"@,
        WinitKeyCode::Digit2 => "Digit2"@,
        WinitKeyCode::Digit3 => "Digit3"@,
        WinitKeyCode::Digit4 => "Digit4"@,
        WinitKeyCode::Digit5 => "Digit5"@,
        WinitKeyCode::Digit6 => "Digit6"@,
        WinitKeyCode::Digit7 => "Digit7"@,
        WinitKeyCode::Digit8 => "Digit8"@,
        WinitKeyCode::Digit9 => "Digit9"@,
        WinitKeyCode::Space => "Space"@,
        WinitKeyCode::Tab => "Tab"@,
        WinitKeyCode::Enter => "Enter"@,
        WinitKeyCode::Escape => "Escape"@,
        WinitKeyCode::Backspace => "Backspace"@,
        WinitKeyCode::Backquote => "Backquote"@,
        WinitKeyCode::Minus => "Minus"@,
        WinitKeyCode::Equal => "Equal"@,
        WinitKeyCode::BracketLeft => "BracketLeft"@,
        WinitKeyCode::BracketRight => "BracketRight"@,
        WinitKeyCode::Backslash => "Backslash"@,
        WinitKeyCode::Semicolon => "Semicolon"@,
        WinitKeyCode::Quote => "Quote"@,
        WinitKeyCode::Comma => "Comma"@,
        WinitKeyCode::Period => "Period"@,
        WinitKeyCode::Slash => "Slash"@,
        WinitKeyCode::ShiftLeft => "ShiftLeft"@,
        WinitKeyCode::ShiftRight => "ShiftRight"@,
        WinitKeyCode::ControlLeft => "ControlLeft"@,
        WinitKeyCode::ControlRight => "ControlRight"@,
        WinitKeyCode::AltLeft => "AltLeft"@,
        WinitKeyCode::AltRight => "AltRight"@,
        WinitKeyCode::SuperLeft => "SuperLeft"@,
        WinitKeyCode::SuperRight => "SuperRight"@,
        WinitKeyCode::CapsLock => "CapsLock"@,
        WinitKeyCode::NumLock => "NumLock"@,
        WinitKeyCode::ScrollLock => "ScrollLock"@,
        WinitKeyCode::PrintScreen => "PrintScreen"@,
        WinitKeyCode::Pause => "Pause"@,
        WinitKeyCode::Insert => "Insert"@,
        WinitKeyCode::Delete => "Delete"@,
        WinitKeyCode::Home => "Home"@,
        WinitKeyCode::End => "End"@,
        WinitKeyCode::PageUp => "PageUp"@,
        WinitKeyCode::PageDown => "PageDown"@,
        WinitKeyCode::ArrowUp => "ArrowUp"@,
        WinitKeyCode::ArrowDown => "ArrowDown"@,
        WinitKeyCode::ArrowLeft => "ArrowLeft"@,
        WinitKeyCode::ArrowRight => "ArrowRight"@,
        WinitKeyCode::Numpad0 => "Numpad0"@,
        WinitKeyCode::Numpad1 => "Numpad1"@,
        WinitKeyCode::Numpad2 => "Numpad2"@,
        WinitKeyCode::Numpad3 => "Numpad3"@,
        WinitKeyCode::Numpad4 => "Numpad4"@,
        WinitKeyCode::Numpad5 => "Numpad5"@,
        WinitKeyCode::Numpad6 => "Numpad6"@,
        WinitKeyCode::Numpad7 => "Numpad7"@,
        WinitKeyCode::Numpad8 => "Numpad8"@,
        WinitKeyCode::Numpad9 => "Numpad9"@,
        WinitKeyCode::NumpadAdd => "NumpadAdd"@,
        WinitKeyCode::NumpadSubtract => "NumpadSubtract"@,
        WinitKeyCode::NumpadMultiply => "NumpadMultiply"@,
        WinitKeyCode::NumpadDivide => "NumpadDivide"@,
        WinitKeyCode::NumpadDecimal => "NumpadDecimal"@,
        WinitKeyCode::NumpadEnter => "NumpadEnter"@,
        WinitKeyCode::F1 => "F1"@,
        WinitKeyCode::F2 => "F2"@,
        WinitKeyCode::F3 => "F3"@,
        WinitKeyCode::F4 => "F4"@,
        WinitKeyCode::F5 => "F5"@,
        WinitKeyCode::F6 => "F6"@,
        WinitKeyCode::F7 => "F7"@,
        WinitKeyCode::F8 => "F8"@,
        WinitKeyCode::F9 => "F9"@,
        WinitKeyCode::F10 => "F10"@,
        WinitKeyCode::F11 => "F11"@,
        WinitKeyCode::F12 => "F12"@,
        WinitKeyCode::F13 => "F13"@,
        WinitKeyCode::F14 => "F14"@,
        WinitKeyCode::F15 => "F15"@,
        WinitKeyCode::F16 => "F16"@,
        WinitKeyCode::F17 => "F17"@,
        WinitKeyCode::F18 => "F18"@,
        WinitKeyCode::F19 => "F19"@,
        WinitKeyCode::F20 => "F20"@,
        WinitKeyCode::F21 => "F21"@,
        WinitKeyCode::F22 => "F22"@,
        WinitKeyCode::F23 => "F23"@,
        WinitKeyCode::F24 => "F24"@,
        WinitKeyCode::Unsupported => "Unsupported"@,
    }
}

/// The name of a keyboard key.
pub fn format_winit_key_code(value: WinitKeyCode) -> (r: &'static str)
    ensures
        r@ == winit_key_name(value),
{
    match value {
        WinitKeyCode::KeyA => "KeyA",
        WinitKeyCode::KeyB => "KeyB",
        WinitKeyCode::KeyC => "KeyC",
        WinitKeyCode::KeyD => "KeyD",
        WinitKeyCode::KeyE => "KeyE",
        WinitKeyCode::KeyF => "KeyF",
        WinitKeyCode::KeyG => "KeyG",
        WinitKeyCode::KeyH => "KeyH",
        WinitKeyCode::KeyI => "KeyI",
        WinitKeyCode::KeyJ => "KeyJ",
        WinitKeyCode::KeyK => "KeyK",
        WinitKeyCode::KeyL => "KeyL",
        WinitKeyCode::KeyM => "KeyM",
        WinitKeyCode::KeyN => "KeyN",
        WinitKeyCode::KeyO => "KeyO",
        WinitKeyCode::KeyP => "KeyP",
        WinitKeyCode::KeyQ => "KeyQ",
        WinitKeyCode::KeyR => "KeyR",
        WinitKeyCode::KeyS => "KeyS",
        WinitKeyCode::KeyT => "KeyT",
        WinitKeyCode::KeyU => "KeyU",
        WinitKeyCode::KeyV => "KeyV",
        WinitKeyCode::KeyW => "KeyW",
        WinitKeyCode::KeyX => "KeyX",
        WinitKeyCode::KeyY => "KeyY",
        WinitKeyCode::KeyZ => "KeyZ",
        WinitKeyCode::Digit0 => "Digit0",
        WinitKeyCode::Digit1 => "Digit1",
        WinitKeyCode::Digit2 => "Digit2",
        WinitKeyCode::Digit3 => "Digit3",
        WinitKeyCode::Digit4 => "Digit4",
        WinitKeyCode::Digit5 => "Digit5",
        WinitKeyCode::Digit6 => "Digit6",
        WinitKeyCode::Digit7 => "Digit7",
        WinitKeyCode::Digit8 => "Digit8",
        WinitKeyCode::Digit9 => "Digit9",
        WinitKeyCode::Space => "Space",
        WinitKeyCode::Tab => "Tab",
        WinitKeyCode::Enter => "Enter",
        WinitKeyCode::Escape => "Escape",
        WinitKeyCode::Backspace => "Backspace",
        WinitKeyCode::Backquote => "Backquote",
        WinitKeyCode::Minus => "Minus",
        WinitKeyCode::Equal => "Equal",
        WinitKeyCode::BracketLeft => "BracketLeft",
        WinitKeyCode::BracketRight => "BracketRight",
        WinitKeyCode::Backslash => "Backslash",
        WinitKeyCode::Semicolon => "Semicolon",
        WinitKeyCode::Quote => "Quote",
        WinitKeyCode::Comma => "Comma",
        WinitKeyCode::Period => "Period",
        WinitKeyCode::Slash => "Slash",
        WinitKeyCode::ShiftLeft => "ShiftLeft",
        WinitKeyCode::ShiftRight => "ShiftRight",
        WinitKeyCode::ControlLeft => "ControlLeft",
        WinitKeyCode::ControlRight => "ControlRight",
        WinitKeyCode::AltLeft => "AltLeft",
        WinitKeyCode::AltRight => "AltRight",
        WinitKeyCode::SuperLeft => "SuperLeft",
        WinitKeyCode::SuperRight => "SuperRight",
        WinitKeyCode::CapsLock => "CapsLock",
        WinitKeyCode::NumLock => "NumLock",
        WinitKeyCode::ScrollLock => "ScrollLock",
        WinitKeyCode::PrintScreen => "PrintScreen",
        WinitKeyCode::Pause => "Pause",
        WinitKeyCode::Insert => "Insert",
        WinitKeyCode::Delete => "Delete",
        WinitKeyCode::Home => "Home",
        WinitKeyCode::End => "End",
        WinitKeyCode::PageUp => "PageUp",
        WinitKeyCode::PageDown => "PageDown",
        WinitKeyCode::ArrowUp => "ArrowUp",
        WinitKeyCode::ArrowDown => "ArrowDown",
        WinitKeyCode::ArrowLeft => "ArrowLeft",
        WinitKeyCode::ArrowRight => "ArrowRight",
        WinitKeyCode::Numpad0 => "Numpad0",
        WinitKeyCode::Numpad1 => "Numpad1",
        WinitKeyCode::Numpad2 => "Numpad2",
        WinitKeyCode::Numpad3 => "Numpad3",
        WinitKeyCode::Numpad4 => "Numpad4",
        WinitKeyCode::Numpad5 => "Numpad5",
        WinitKeyCode::Numpad6 => "Numpad6",
        WinitKeyCode::Numpad7 => "Numpad7",
        WinitKeyCode::Numpad8 => "Numpad8",
        WinitKeyCode::Numpad9 => "Numpad9",
        WinitKeyCode::NumpadAdd => "NumpadAdd",
        WinitKeyCode::NumpadSubtract => "NumpadSubtract",
        WinitKeyCode::NumpadMultiply => "NumpadMultiply",
        WinitKeyCode::NumpadDivide => "NumpadDivide",
        WinitKeyCode::NumpadDecimal => "NumpadDecimal",
        WinitKeyCode::NumpadEnter => "NumpadEnter",
        WinitKeyCode::F1 => "F1",
        WinitKeyCode::F2 => "F2",
        WinitKeyCode::F3 => "F3",
        WinitKeyCode::F4 => "F4",
        WinitKeyCode::F5 => "F5",
        WinitKeyCode::F6 => "F6",
        WinitKeyCode::F7 => "F7",
        WinitKeyCode::F8 => "F8",
        WinitKeyCode::F9 => "F9",
        WinitKeyCode::F10 => "F10",
        WinitKeyCode::F11 => "F11",
        WinitKeyCode::F12 => "F12",
        WinitKeyCode::F13 => "F13",
        WinitKeyCode::F14 => "F14",
        WinitKeyCode::F15 => "F15",
        WinitKeyCode::F16 => "F16",
        WinitKeyCode::F17 => "F17",
        WinitKeyCode::F18 => "F18",
        WinitKeyCode::F19 => "F19",
        WinitKeyCode::F20 => "F20",
        WinitKeyCode::F21 => "F21",
        WinitKeyCode::F22 => "F22",
        WinitKeyCode::F23 => "F23",
        WinitKeyCode::F24 => "F24",
        WinitKeyCode::Unsupported => "Unsupported",
    }
}

/// The keyboard key with this name.
pub fn parse_winit_key_code(value: &str) -> (r: Option<WinitKeyCode>)
    ensures
        match r {
            Some(k) => k != WinitKeyCode::Unsupported && winit_key_name(k) == value@,
            None => forall|k: WinitKeyCode| k != WinitKeyCode::Unsupported ==> #[trigger] winit_key_name(k) != value@,
        },
{
    if same_text(value, "KeyA") {
        return Some(WinitKeyCode::KeyA);
    }
    if same_text(value, "KeyB") {
        return Some(WinitKeyCode::KeyB);
    }
    if same_text(value, "KeyC") {
        return Some(WinitKeyCode::KeyC);
    }
    if same_text(value, "KeyD") {
        return Some(WinitKeyCode::KeyD);
    }
    if same_text(value, "KeyE") {
        return Some(WinitKeyCode::KeyE);
    }
    if same_text(value, "KeyF") {
        return Some(WinitKeyCode::KeyF);
    }
    if same_text(value, "KeyG") {
        return Some(WinitKeyCode::KeyG);
    }
    if same_text(value, "KeyH") {
        return Some(WinitKeyCode::KeyH);
    }
    if same_text(value, "KeyI") {
        return Some(WinitKeyCode::KeyI);
    }
    if same_text(value, "KeyJ") {
        return Some(WinitKeyCode::KeyJ);
    }
    if same_text(value, "KeyK") {
        return Some(WinitKeyCode::KeyK);
    }
    if same_text(value, "KeyL") {
        return Some(WinitKeyCode::KeyL);
    }
    if same_text(value, "KeyM") {
        return Some(WinitKeyCode::KeyM);
    }
    if same_text(value, "KeyN") {
        return Some(WinitKeyCode::KeyN);
    }
    if same_text(value, "KeyO") {
        return Some(WinitKeyCode::KeyO);
    }
    if same_text(value, "KeyP") {
        return Some(WinitKeyCode::KeyP);
    }
    if same_text(value, "KeyQ") {
        return Some(WinitKeyCode::KeyQ);
    }
    if same_text(value, "KeyR") {
        return Some(WinitKeyCode::KeyR);
    }
    if same_text(value, "KeyS") {
        return Some(WinitKeyCode::KeyS);
    }
    if same_text(value, "KeyT") {
        return Some(WinitKeyCode::KeyT);
    }
    if same_text(value, "KeyU") {
        return Some(WinitKeyCode::KeyU);
    }
    if same_text(value, "KeyV") {
        return Some(WinitKeyCode::KeyV);
    }
    if same_text(value, "KeyW") {
        return Some(WinitKeyCode::KeyW);
    }
    if same_text(value, "KeyX") {
        return Some(WinitKeyCode::KeyX);
    }
    if same_text(value, "KeyY") {
        return Some(WinitKeyCode::KeyY);
    }
    if same_text(value, "KeyZ") {
        return Some(WinitKeyCode::KeyZ);
    }
    if same_text(value, "Digit0") {
        return Some(WinitKeyCode::Digit0);
    }
    if same_text(value, "Digit1") {
        return Some(WinitKeyCode::Digit1);
    }
    if same_text(value, "Digit2") {
        return Some(WinitKeyCode::Digit2);
    }
    if same_text(value, "Digit3") {
        return Some(WinitKeyCode::Digit3);
    }
    if same_text(value, "Digit4") {
        return Some(WinitKeyCode::Digit4);
    }
    if same_text(value, "Digit5") {
        return Some(WinitKeyCode::Digit5);
    }
    if same_text(value, "Digit6") {
        return Some(WinitKeyCode::Digit6);
    }
    if same_text(value, "Digit7") {
        return Some(WinitKeyCode::Digit7);
    }
    if same_text(value, "Digit8") {
        return Some(WinitKeyCode::Digit8);
    }
    if same_text(value, "Digit9") {
        return Some(WinitKeyCode::Digit9);
    }
    if same_text(value, "Space") {
        return Some(WinitKeyCode::Space);
    }
    if same_text(value, "Tab") {
        return Some(WinitKeyCode::Tab);
    }
    if same_text(value, "Enter") {
        return Some(WinitKeyCode::Enter);
    }
    if same_text(value, "Escape") {
        return Some(WinitKeyCode::Escape);
    }
    if same_text(value, "Backspace") {
        return Some(WinitKeyCode::Backspace);
    }
    if same_text(value, "Backquote") {
        return Some(WinitKeyCode::Backquote);
    }
    if same_text(value, "Minus") {
        return Some(WinitKeyCode::Minus);
    }
    if same_text(value, "Equal") {
        return Some(WinitKeyCode::Equal);
    }
    if same_text(value, "BracketLeft") {
        return Some(WinitKeyCode::BracketLeft);
    }
    if same_text(value, "BracketRight") {
        return Some(WinitKeyCode::BracketRight);
    }
    if same_text(value, "Backslash") {
        return Some(WinitKeyCode::Backslash);
    }
    if same_text(value, "Semicolon") {
        return Some(WinitKeyCode::Semicolon);
    }
    if same_text(value, "Quote") {
        return Some(WinitKeyCode::Quote);
    }
    if same_text(value, "Comma") {
        return Some(WinitKeyCode::Comma);
    }
    if same_text(value, "Period") {
        return Some(WinitKeyCode::Period);
    }
    if same_text(value, "Slash") {
        return Some(WinitKeyCode::Slash);
    }
    if same_text(value, "ShiftLeft") {
        return Some(WinitKeyCode::ShiftLeft);
    }
    if same_text(value, "ShiftRight") {
        return Some(WinitKeyCode::ShiftRight);
    }
    if same_text(value, "ControlLeft") {
        return Some(WinitKeyCode::ControlLeft);
    }
    if same_text(value, "ControlRight") {
        return Some(WinitKeyCode::ControlRight);
    }
    if same_text(value, "AltLeft") {
        return Some(WinitKeyCode::AltLeft);
    }
    if same_text(value, "AltRight") {
        return Some(WinitKeyCode::AltRight);
    }
    if same_text(value, "SuperLeft") {
        return Some(WinitKeyCode::SuperLeft);
    }
    if same_text(value, "SuperRight") {
        return Some(WinitKeyCode::SuperRight);
    }
    if same_text(value, "CapsLock") {
        return Some(WinitKeyCode::CapsLock);
    }
    if same_text(value, "NumLock") {
        return Some(WinitKeyCode::NumLock);
    }
    if same_text(value, "ScrollLock") {
        return Some(WinitKeyCode::ScrollLock);
    }
    if same_text(value, "PrintScreen") {
        return Some(WinitKeyCode::PrintScreen);
    }
    if same_text(value, "Pause") {
        return Some(WinitKeyCode::Pause);
    }
    if same_text(value, "Insert") {
        return Some(WinitKeyCode::Insert);
    }
    if same_text(value, "Delete") {
        return Some(WinitKeyCode::Delete);
    }
    if same_text(value, "Home") {
        return Some(WinitKeyCode::Home);
    }
    if same_text(value, "End") {
        return Some(WinitKeyCode::End);
    }
    if same_text(value, "PageUp") {
        return Some(WinitKeyCode::PageUp);
    }
    if same_text(value, "PageDown") {
        return Some(WinitKeyCode::PageDown);
    }
    if same_text(value, "ArrowUp") {
        return Some(WinitKeyCode::ArrowUp);
    }
    if same_text(value, "ArrowDown") {
        return Some(WinitKeyCode::ArrowDown);
    }
    if same_text(value, "ArrowLeft") {
        return Some(WinitKeyCode::ArrowLeft);
    }
    if same_text(value, "ArrowRight") {
        return Some(WinitKeyCode::ArrowRight);
    }
    if same_text(value, "Numpad0") {
        return Some(WinitKeyCode::Numpad0);
    }
    if same_text(value, "Numpad1") {
        return Some(WinitKeyCode::Numpad1);
    }
    if same_text(value, "Numpad2") {
        return Some(WinitKeyCode::Numpad2);
    }
    if same_text(value, "Numpad3") {
        return Some(WinitKeyCode::Numpad3);
    }
    if same_text(value, "Numpad4") {
        return Some(WinitKeyCode::Numpad4);
    }
    if same_text(value, "Numpad5") {
        return Some(WinitKeyCode::Numpad5);
    }
    if same_text(value, "Numpad6") {
        return Some(WinitKeyCode::Numpad6);
    }
    if same_text(value, "Numpad7") {
        return Some(WinitKeyCode::Numpad7);
    }
    if same_text(value, "Numpad8") {
        return Some(WinitKeyCode::Numpad8);
    }
    if same_text(value, "Numpad9") {
        return Some(WinitKeyCode::Numpad9);
    }
    if same_text(value, "NumpadAdd") {
        return Some(WinitKeyCode::NumpadAdd);
    }
    if same_text(value, "NumpadSubtract") {
        return Some(WinitKeyCode::NumpadSubtract);
    }
    if same_text(value, "NumpadMultiply") {
        return Some(WinitKeyCode::NumpadMultiply);
    }
    if same_text(value, "NumpadDivide") {
        return Some(WinitKeyCode::NumpadDivide);
    }
    if same_text(value, "NumpadDecimal") {
        return Some(WinitKeyCode::NumpadDecimal);
    }
    if same_text(value, "NumpadEnter") {
        return Some(WinitKeyCode::NumpadEnter);
    }
    if same_text(value, "F1") {
        return Some(WinitKeyCode::F1);
    }
    if same_text(value, "F2") {
        return Some(WinitKeyCode::F2);
    }
    if same_text(value, "F3") {
        return Some(WinitKeyCode::F3);
    }
    if same_text(value, "F4") {
        return Some(WinitKeyCode::F4);
    }
    if same_text(value, "F5") {
        return Some(WinitKeyCode::F5);
    }
    if same_text(value, "F6") {
        return Some(WinitKeyCode::F6);
    }
    if same_text(value, "F7") {
        return Some(WinitKeyCode::F7);
    }
    if same_text(value, "F8") {
        return Some(WinitKeyCode::F8);
    }
    if same_text(value, "F9") {
        return Some(WinitKeyCode::F9);
    }
    if same_text(value, "F10") {
        return Some(WinitKeyCode::F10);
    }
    if same_text(value, "F11") {
        return Some(WinitKeyCode::F11);
    }
    if same_text(value, "F12") {
        return Some(WinitKeyCode::F12);
    }
    if same_text(value, "F13") {
        return Some(WinitKeyCode::F13);
    }
    if same_text(value, "F14") {
        return Some(WinitKeyCode::F14);
    }
    if same_text(value, "F15") {
        return Some(WinitKeyCode::F15);
    }
    if same_text(value, "F16") {
        return Some(WinitKeyCode::F16);
    }
    if same_text(value, "F17") {
        return Some(WinitKeyCode::F17);
    }
    if same_text(value, "F18") {
        return Some(WinitKeyCode::F18);
    }
    if same_text(value, "F19") {
        return Some(WinitKeyCode::F19);
    }
    if same_text(value, "F20") {
        return Some(WinitKeyCode::F20);
    }
    if same_text(value, "F21") {
        return Some(WinitKeyCode::F21);
    }
    if same_text(value, "F22") {
        return Some(WinitKeyCode::F22);
    }
    if same_text(value, "F23") {
        return Some(WinitKeyCode::F23);
    }
    if same_text(value, "F24") {
        return Some(WinitKeyCode::F24);
    }
    assert forall|k: WinitKeyCode| k != WinitKeyCode::Unsupported implies #[trigger] winit_key_name(k) != value@ by {
        match k {
            WinitKeyCode::KeyA => {},
            WinitKeyCode::KeyB => {},
            WinitKeyCode::KeyC => {},
            WinitKeyCode::KeyD => {},
            WinitKeyCode::KeyE => {},
            WinitKeyCode::KeyF => {},
            WinitKeyCode::KeyG => {},
            WinitKeyCode::KeyH => {},
            WinitKeyCode::KeyI => {},
            WinitKeyCode::KeyJ => {},
            WinitKeyCode::KeyK => {},
            WinitKeyCode::KeyL => {},
            WinitKeyCode::KeyM => {},
            WinitKeyCode::KeyN => {},
            WinitKeyCode::KeyO => {},
            WinitKeyCode::KeyP => {},
            WinitKeyCode::KeyQ => {},
            WinitKeyCode::KeyR => {},
            WinitKeyCode::KeyS => {},
            WinitKeyCode::KeyT => {},
            WinitKeyCode::KeyU => {},
            WinitKeyCode::KeyV => {},
            WinitKeyCode::KeyW => {},
            WinitKeyCode::KeyX => {},
            WinitKeyCode::KeyY => {},
            WinitKeyCode::KeyZ => {},
            WinitKeyCode::Digit0 => {},
            WinitKeyCode::Digit1 => {},
            WinitKeyCode::Digit2 => {},
            WinitKeyCode::Digit3 => {},
            WinitKeyCode::Digit4 => {},
            WinitKeyCode::Digit5 => {},
            WinitKeyCode::Digit6 => {},
            WinitKeyCode::Digit7 => {},
            WinitKeyCode::Digit8 => {},
            WinitKeyCode::Digit9 => {},
            WinitKeyCode::Space => {},
            WinitKeyCode::Tab => {},
            WinitKeyCode::Enter => {},
            WinitKeyCode::Escape => {},
            WinitKeyCode::Backspace => {},
            WinitKeyCode::Backquote => {},
            WinitKeyCode::Minus => {},
            WinitKeyCode::Equal => {},
            WinitKeyCode::BracketLeft => {},
            WinitKeyCode::BracketRight => {},
            WinitKeyCode::Backslash => {},
            WinitKeyCode::Semicolon => {},
            WinitKeyCode::Quote => {},
            WinitKeyCode::Comma => {},
            WinitKeyCode::Period => {},
            WinitKeyCode::Slash => {},
            WinitKeyCode::ShiftLeft => {},
            WinitKeyCode::ShiftRight => {},
            WinitKeyCode::ControlLeft => {},
            WinitKeyCode::ControlRight => {},
            WinitKeyCode::AltLeft => {},
            WinitKeyCode::AltRight => {},
            WinitKeyCode::SuperLeft => {},
            WinitKeyCode::SuperRight => {},
            WinitKeyCode::CapsLock => {},
            WinitKeyCode::NumLock => {},
            WinitKeyCode::ScrollLock => {},
            WinitKeyCode::PrintScreen => {},
            WinitKeyCode::Pause => {},
            WinitKeyCode::Insert => {},
            WinitKeyCode::Delete => {},
            WinitKeyCode::Home => {},
            WinitKeyCode::End => {},
            WinitKeyCode::PageUp => {},
            WinitKeyCode::PageDown => {},
            WinitKeyCode::ArrowUp => {},
            WinitKeyCode::ArrowDown => {},
            WinitKeyCode::ArrowLeft => {},
            WinitKeyCode::ArrowRight => {},
            WinitKeyCode::Numpad0 => {},
            WinitKeyCode::Numpad1 => {},
            WinitKeyCode::Numpad2 => {},
            WinitKeyCode::Numpad3 => {},
            WinitKeyCode::Numpad4 => {},
            WinitKeyCode::Numpad5 => {},
            WinitKeyCode::Numpad6 => {},
            WinitKeyCode::Numpad7 => {},
            WinitKeyCode::Numpad8 => {},
            WinitKeyCode::Numpad9 => {},
            WinitKeyCode::NumpadAdd => {},
            WinitKeyCode::NumpadSubtract => {},
            WinitKeyCode::NumpadMultiply => {},
            WinitKeyCode::NumpadDivide => {},
            WinitKeyCode::NumpadDecimal => {},
            WinitKeyCode::NumpadEnter => {},
            WinitKeyCode::F1 => {},
            WinitKeyCode::F2 => {},
            WinitKeyCode::F3 => {},
            WinitKeyCode::F4 => {},
            WinitKeyCode::F5 => {},
            WinitKeyCode::F6 => {},
            WinitKeyCode::F7 => {},
            WinitKeyCode::F8 => {},
            WinitKeyCode::F9 => {},
            WinitKeyCode::F10 => {},
            WinitKeyCode::F11 => {},
            WinitKeyCode::F12 => {},
            WinitKeyCode::F13 => {},
            WinitKeyCode::F14 => {},
            WinitKeyCode::F15 => {},
            WinitKeyCode::F16 => {},
            WinitKeyCode::F17 => {},
            WinitKeyCode::F18 => {},
            WinitKeyCode::F19 => {},
            WinitKeyCode::F20 => {},
            WinitKeyCode::F21 => {},
            WinitKeyCode::F22 => {},
            WinitKeyCode::F23 => {},
            WinitKeyCode::F24 => {},
            WinitKeyCode::Unsupported => {},
        }
    }
    None
}

/// The name of a gamepad button.
pub open spec fn button_name(value: Button) -> Seq<char> {
    match value {
        Button::South => "South"@,
        Button::East => "East"@,
        Button::North => "North"@,
        Button::West => "West"@,
        Button::C => "C"@,
        Button::Z => "Z"@,
        Button::LeftTrigger => "LeftTrigger"@,
        Button::LeftTrigger2 => "LeftTrigger2"@,
        Button::RightTrigger => "RightTrigger"@,
        Button::RightTrigger2 => "RightTrigger2"@,
        Button::Select => "Select"@,
        Button::Start => "Start"@,
        Button::Mode => "Mode"@,
        Button::LeftThumb => "LeftThumb"@,
        Button::RightThumb => "RightThumb"@,
        Button::DPadUp => "DPadUp"@,
        Button::DPadDown => "DPadDown"@,
        Button::DPadLeft => "DPadLeft"@,
        Button::DPadRight => "DPadRight"@,
        Button::Unknown => "Unknown"@,
    }
}

/// The name of a gamepad button.
pub fn format_gamepad_button(value: Button) -> (r: &'static str)
    ensures
        r@ == button_name(value),
{
    match value {
        Button::South => "South",
        Button::East => "East",
        Button::North => "North",
        Button::West => "West",
        Button::C => "C",
        Button::Z => "Z",
        Button::LeftTrigger => "LeftTrigger",
        Button::LeftTrigger2 => "LeftTrigger2",
        Button::RightTrigger => "RightTrigger",
        Button::RightTrigger2 => "RightTrigger2",
        Button::Select => "Select",
        Button::Start => "Start",
        Button::Mode => "Mode",
        Button::LeftThumb => "LeftThumb",
        Button::RightThumb => "RightThumb",
        Button::DPadUp => "DPadUp",
        Button::DPadDown => "DPadDown",
        Button::DPadLeft => "DPadLeft",
        Button::DPadRight => "DPadRight",
        Button::Unknown => "Unknown",
    }
}

/// The gamepad button with this name.
pub fn parse_gamepad_button(value: &str) -> (r: Option<Button>)
    ensures
        match r {
            Some(k) => k != Button::Unknown && button_name(k) == value@,
            None => forall|k: Button| k != Button::Unknown ==> #[trigger] button_name(k) != value@,
        },
{
    if same_text(value, "South") {
        return Some(Button::South);
    }
    if same_text(value, "East") {
        return Some(Button::East);
    }
    if same_text(value, "North") {
        return Some(Button::North);
    }
    if same_text(value, "West") {
        return Some(Button::West);
    }
    if same_text(value, "C") {
        return Some(Button::C);
    }
    if same_text(value, "Z") {
        return Some(Button::Z);
    }
    if same_text(value, "LeftTrigger") {
        return Some(Button::LeftTrigger);
    }
    if same_text(value, "LeftTrigger2") {
        return Some(Button::LeftTrigger2);
    }
    if same_text(value, "RightTrigger") {
        return Some(Button::RightTrigger);
    }
    if same_text(value, "RightTrigger2") {
        return Some(Button::RightTrigger2);
    }
    if same_text(value, "Select") {
        return Some(Button::Select);
    }
    if same_text(value, "Start") {
        return Some(Button::Start);
    }
    if same_text(value, "Mode") {
        return Some(Button::Mode);
    }
    if same_text(value, "LeftThumb") {
        return Some(Button::LeftThumb);
    }
    if same_text(value, "RightThumb") {
        return Some(Button::RightThumb);
    }
    if same_text(value, "DPadUp") {
        return Some(Button::DPadUp);
    }
    if same_text(value, "DPadDown") {
        return Some(Button::DPadDown);
    }
    if same_text(value, "DPadLeft") {
        return Some(Button::DPadLeft);
    }
    if same_text(value, "DPadRight") {
        return Some(Button::DPadRight);
    }
    assert forall|k: Button| k != Button::Unknown implies #[trigger] button_name(k) != value@ by {
        match k {
            Button::South => {},
            Button::East => {},
            Button::North => {},
            Button::West => {},
            Button::C => {},
            Button::Z => {},
            Button::LeftTrigger => {},
            Button::LeftTrigger2 => {},
            Button::RightTrigger => {},
            Button::RightTrigger2 => {},
            Button::Select => {},
            Button::Start => {},
            Button::Mode => {},
            Button::LeftThumb => {},
            Button::RightThumb => {},
            Button::DPadUp => {},
            Button::DPadDown => {},
            Button::DPadLeft => {},
            Button::DPadRight => {},
            Button::Unknown => {},
        }
    }
    None
}

/// The name of a stick direction.
pub open spec fn axis_name(value: GamepadAxisDirection) -> Seq<char> {
    match value {
        GamepadAxisDirection::LeftStickUp => "LeftStickUp"@,
        GamepadAxisDirection::LeftStickDown => "LeftStickDown"@,
        GamepadAxisDirection::LeftStickLeft => "LeftStickLeft"@,
        GamepadAxisDirection::LeftStickRight => "LeftStickRight"@,
        GamepadAxisDirection::RightStickUp => "RightStickUp"@,
        GamepadAxisDirection::RightStickDown => "RightStickDown"@,
        GamepadAxisDirection::RightStickLeft => "RightStickLeft"@,
        GamepadAxisDirection::RightStickRight => "RightStickRight"@,
    }
}

/// The name of a stick direction.
pub fn format_gamepad_axis_direction(value: GamepadAxisDirection) -> (r: &'static str)
    ensures
        r@ == axis_name(value),
{
    match value {
        GamepadAxisDirection::LeftStickUp => "LeftStickUp",
        GamepadAxisDirection::LeftStickDown => "LeftStickDown",
        GamepadAxisDirection::LeftStickLeft => "LeftStickLeft",
        GamepadAxisDirection::LeftStickRight => "LeftStickRight",
        GamepadAxisDirection::RightStickUp => "RightStickUp",
        GamepadAxisDirection::RightStickDown => "RightStickDown",
        GamepadAxisDirection::RightStickLeft => "RightStickLeft",
        GamepadAxisDirection::RightStickRight => "RightStickRight",
    }
}

/// The stick direction with this name.
pub fn parse_gamepad_axis_direction(value: &str) -> (r: Option<GamepadAxisDirection>)
    ensures
        match r {
            Some(k) => axis_name(k) == value@,
            None => forall|k: GamepadAxisDirection| #[trigger] axis_name(k) != value@,
        },
{
    if same_text(value, "LeftStickUp") {
        return Some(GamepadAxisDirection::LeftStickUp);
    }
    if same_text(value, "LeftStickDown") {
        return Some(GamepadAxisDirection::LeftStickDown);
    }
    if same_text(value, "LeftStickLeft") {
        return Some(GamepadAxisDirection::LeftStickLeft);
    }
    if same_text(value, "LeftStickRight") {
        return Some(GamepadAxisDirection::LeftStickRight);
    }
    if same_text(value, "RightStickUp") {
        return Some(GamepadAxisDirection::RightStickUp);
    }
    if same_text(value, "RightStickDown") {
        return Some(GamepadAxisDirection::RightStickDown);
    }
    if same_text(value, "RightStickLeft") {
        return Some(GamepadAxisDirection::RightStickLeft);
    }
    if same_text(value, "RightStickRight") {
        return Some(GamepadAxisDirection::RightStickRight);
    }
    assert forall|k: GamepadAxisDirection| #[trigger] axis_name(k) != value@ by {
        match k {
            GamepadAxisDirection::LeftStickUp => {},
            GamepadAxisDirection::LeftStickDown => {},
            GamepadAxisDirection::LeftStickLeft => {},
            GamepadAxisDirection::LeftStickRight => {},
            GamepadAxisDirection::RightStickUp => {},
            GamepadAxisDirection::RightStickDown => {},
            GamepadAxisDirection::RightStickLeft => {},
            GamepadAxisDirection::RightStickRight => {},
        }
    }
    None
}

/// The name of a phone key.
pub open spec fn phone_key_name(value: KeyCode) -> Seq<char> {
    match value {
        KeyCode::UP => "UP"@,
        KeyCode::DOWN => "DOWN"@,
        KeyCode::LEFT => "LEFT"@,
        KeyCode::RIGHT => "RIGHT"@,
        KeyCode::OK => "OK"@,
        KeyCode::LEFT_SOFT_KEY => "LEFT_SOFT_KEY"@,
        KeyCode::RIGHT_SOFT_KEY => "RIGHT_SOFT_KEY"@,
        KeyCode::CLEAR => "CLEAR"@,
        KeyCode::CALL => "CALL"@,
        KeyCode::HANGUP => "HANGUP"@,
        KeyCode::VOLUME_UP => "VOLUME_UP"@,
        KeyCode::VOLUME_DOWN => "VOLUME_DOWN"@,
        KeyCode::NUM0 => "NUM0"@,
        KeyCode::NUM1 => "NUM1"@,
        KeyCode::NUM2 => "NUM2"@,
        KeyCode::NUM3 => "NUM3"@,
        KeyCode::NUM4 => "NUM4"@,
        KeyCode::NUM5 => "NUM5"@,
        KeyCode::NUM6 => "NUM6"@,
        KeyCode::NUM7 => "NUM7"@,
        KeyCode::NUM8 => "NUM8"@,
        KeyCode::NUM9 => "NUM9"@,
        KeyCode::HASH => "HASH"@,
        KeyCode::STAR => "STAR"@,
    }
}

/// The short name of a phone key, or its name where it has none.
pub open spec fn phone_key_alias(value: KeyCode) -> Seq<char> {
    match value {
        KeyCode::UP => "UP"@,
        KeyCode::DOWN => "DOWN"@,
        KeyCode::LEFT => "LEFT"@,
        KeyCode::RIGHT => "RIGHT"@,
        KeyCode::OK => "OK"@,
        KeyCode::LEFT_SOFT_KEY => "LEFT_SOFT_KEY"@,
        KeyCode::RIGHT_SOFT_KEY => "RIGHT_SOFT_KEY"@,
        KeyCode::CLEAR => "CLR"@,
        KeyCode::CALL => "CALL"@,
        KeyCode::HANGUP => "HANGUP"@,
        KeyCode::VOLUME_UP => "VOLUME_UP"@,
        KeyCode::VOLUME_DOWN => "VOLUME_DOWN"@,
        KeyCode::NUM0 => "0"@,
        KeyCode::NUM1 => "1"@,
        KeyCode::NUM2 => "2"@,
        KeyCode::NUM3 => "3"@,
        KeyCode::NUM4 => "4"@,
        KeyCode::NUM5 => "5"@,
        KeyCode::NUM6 => "6"@,
        KeyCode::NUM7 => "7"@,
        KeyCode::NUM8 => "8"@,
        KeyCode::NUM9 => "9"@,
        KeyCode::HASH => "#"@,
        KeyCode::STAR => "*"@,
    }
}

/// `text` is one of the names of the phone key.
pub open spec fn names_phone_key(value: KeyCode, text: Seq<char>) -> bool {
    text == phone_key_name(value) || text == phone_key_alias(value)
}

/// The name of a phone key.
pub fn format_backend_key_code(value: KeyCode) -> (r: &'static str)
    ensures
        r@ == phone_key_name(value),
{
    match value {
        KeyCode::UP => "UP",
        KeyCode::DOWN => "DOWN",
        KeyCode::LEFT => "LEFT",
        KeyCode::RIGHT => "RIGHT",
        KeyCode::OK => "OK",
        KeyCode::LEFT_SOFT_KEY => "LEFT_SOFT_KEY",
        KeyCode::RIGHT_SOFT_KEY => "RIGHT_SOFT_KEY",
        KeyCode::CLEAR => "CLEAR",
        KeyCode::CALL => "CALL",
        KeyCode::HANGUP => "HANGUP",
        KeyCode::VOLUME_UP => "VOLUME_UP",
        KeyCode::VOLUME_DOWN => "VOLUME_DOWN",
        KeyCode::NUM0 => "NUM0",
        KeyCode::NUM1 => "NUM1",
        KeyCode::NUM2 => "NUM2",
        KeyCode::NUM3 => "NUM3",
        KeyCode::NUM4 => "NUM4",
        KeyCode::NUM5 => "NUM5",
        KeyCode::NUM6 => "NUM6",
        KeyCode::NUM7 => "NUM7",
        KeyCode::NUM8 => "NUM8",
        KeyCode::NUM9 => "NUM9",
        KeyCode::HASH => "HASH",
        KeyCode::STAR => "STAR",
    }
}

/// The phone key with this name or short name.
pub fn parse_backend_key_code(value: &str) -> (r: Option<KeyCode>)
    ensures
        match r {
            Some(k) => names_phone_key(k, value@),
            None => forall|k: KeyCode| !#[trigger] names_phone_key(k, value@),
        },
{
    if same_text(value, "UP") {
        return Some(KeyCode::UP);
    }
    if same_text(value, "DOWN") {
        return Some(KeyCode::DOWN);
    }
    if same_text(value, "LEFT") {
        return Some(KeyCode::LEFT);
    }
    if same_text(value, "RIGHT") {
        return Some(KeyCode::RIGHT);
    }
    if same_text(value, "OK") {
        return Some(KeyCode::OK);
    }
    if same_text(value, "LEFT_SOFT_KEY") {
        return Some(KeyCode::LEFT_SOFT_KEY);
    }
    if same_text(value, "RIGHT_SOFT_KEY") {
        return Some(KeyCode::RIGHT_SOFT_KEY);
    }
    if same_text(value, "CLEAR") || same_text(value, "CLR") {
        return Some(KeyCode::CLEAR);
    }
    if same_text(value, "CALL") {
        return Some(KeyCode::CALL);
    }
    if same_text(value, "HANGUP") {
        return Some(KeyCode::HANGUP);
    }
    if same_text(value, "VOLUME_UP") {
        return Some(KeyCode::VOLUME_UP);
    }
    if same_text(value, "VOLUME_DOWN") {
        return Some(KeyCode::VOLUME_DOWN);
    }
    if same_text(value, "NUM0") || same_text(value, "0") {
        return Some(KeyCode::NUM0);
    }
    if same_text(value, "NUM1") || same_text(value, "1") {
        return Some(KeyCode::NUM1);
    }
    if same_text(value, "NUM2") || same_text(value, "2") {
        return Some(KeyCode::NUM2);
    }
    if same_text(value, "NUM3") || same_text(value, "3") {
        return Some(KeyCode::NUM3);
    }
    if same_text(value, "NUM4") || same_text(value, "4") {
        return Some(KeyCode::NUM4);
    }
    if same_text(value, "NUM5") || same_text(value, "5") {
        return Some(KeyCode::NUM5);
    }
    if same_text(value, "NUM6") || same_text(value, "6") {
        return Some(KeyCode::NUM6);
    }
    if same_text(value, "NUM7") || same_text(value, "7") {
        return Some(KeyCode::NUM7);
    }
    if same_text(value, "NUM8") || same_text(value, "8") {
        return Some(KeyCode::NUM8);
    }
    if same_text(value, "NUM9") || same_text(value, "9") {
        return Some(KeyCode::NUM9);
    }
    if same_text(value, "HASH") || same_text(value, "#") {
        return Some(KeyCode::HASH);
    }
    if same_text(value, "STAR") || same_text(value, "*") {
        return Some(KeyCode::STAR);
    }
    assert forall|k: KeyCode| !#[trigger] names_phone_key(k, value@) by {
        match k {
            KeyCode::UP => {},
            KeyCode::DOWN => {},
            KeyCode::LEFT => {},
            KeyCode::RIGHT => {},
            KeyCode::OK => {},
            KeyCode::LEFT_SOFT_KEY => {},
            KeyCode::RIGHT_SOFT_KEY => {},
            KeyCode::CLEAR => {},
            KeyCode::CALL => {},
            KeyCode::HANGUP => {},
            KeyCode::VOLUME_UP => {},
            KeyCode::VOLUME_DOWN => {},
            KeyCode::NUM0 => {},
            KeyCode::NUM1 => {},
            KeyCode::NUM2 => {},
            KeyCode::NUM3 => {},
            KeyCode::NUM4 => {},
            KeyCode::NUM5 => {},
            KeyCode::NUM6 => {},
            KeyCode::NUM7 => {},
            KeyCode::NUM8 => {},
            KeyCode::NUM9 => {},
            KeyCode::HASH => {},
            KeyCode::STAR => {},
        }
    }
    None
}

/// The name of a gamepad input.
pub open spec fn gamepad_input_name(value: GamepadInput) -> Seq<char> {
    match value {
        GamepadInput::Button(button) => button_name(button),
        GamepadInput::Axis(axis) => axis_name(axis),
    }
}

/// The name of a gamepad input.
pub fn format_gamepad_input(value: GamepadInput) -> (r: &'static str)
    ensures
        r@ == gamepad_input_name(value),
{
    match value {
        GamepadInput::Button(button) => format_gamepad_button(button),
        GamepadInput::Axis(axis) => format_gamepad_axis_direction(axis),
    }
}

/// The gamepad input with this name.
pub fn parse_gamepad_input(value: &str) -> (r: Option<GamepadInput>)
    ensures
        match r {
            Some(k) => k != GamepadInput::Button(Button::Unknown) && gamepad_input_name(k)
                == value@,
            None => forall|k: GamepadInput|
                k != GamepadInput::Button(Button::Unknown) ==> #[trigger] gamepad_input_name(k)
                    != value@,
        },
{
    if let Some(button) = parse_gamepad_button(value) {
        return Some(GamepadInput::Button(button));
    }
    if let Some(axis) = parse_gamepad_axis_direction(value) {
        return Some(GamepadInput::Axis(axis));
    }
    assert forall|k: GamepadInput|
        k != GamepadInput::Button(Button::Unknown) implies #[trigger] gamepad_input_name(k)
        != value@ by {
        match k {
            GamepadInput::Button(button) => {
                assert(button != Button::Unknown ==> button_name(button) != value@);
            },
            GamepadInput::Axis(axis) => {
                assert(axis_name(axis) != value@);
            },
        }
    }
    None
}

// ---------------------------------------------------------------------------
// No two keys share a name

/// What tells the names of keyboard keys apart: the length, and the last, the
/// second to last and the second character.
spec fn winit_mark(s: Seq<char>) -> int {
    s.len() + 64 * (s[s.len() - 1] as int + 128 * (s[s.len() - 2] as int + 128 * (s[1] as int)))
}

spec fn winit_mark_of(value: WinitKeyCode) -> int {
    match value {
        WinitKeyCode::KeyA => 106901572,
        WinitKeyCode::KeyB => 106901636,
        WinitKeyCode::KeyC => 106901700,
        WinitKeyCode::KeyD => 106901764,
        WinitKeyCode::KeyE => 106901828,
        WinitKeyCode::KeyF => 106901892,
        WinitKeyCode::KeyG => 106901956,
        WinitKeyCode::KeyH => 106902020,
        WinitKeyCode::KeyI => 106902084,
        WinitKeyCode::KeyJ => 106902148,
        WinitKeyCode::KeyK => 106902212,
        WinitKeyCode::KeyL => 106902276,
        WinitKeyCode::KeyM => 106902340,
        WinitKeyCode::KeyN => 106902404,
        WinitKeyCode::KeyO => 106902468,
        WinitKeyCode::KeyP => 106902532,
        WinitKeyCode::KeyQ => 106902596,
        WinitKeyCode::KeyR => 106902660,
        WinitKeyCode::KeyS => 106902724,
        WinitKeyCode::KeyT => 106902788,
        WinitKeyCode::KeyU => 106902852,
        WinitKeyCode::KeyV => 106902916,
        WinitKeyCode::KeyW => 106902980,
        WinitKeyCode::KeyX => 106903044,
        WinitKeyCode::KeyY => 106903108,
        WinitKeyCode::KeyZ => 106903172,
        WinitKeyCode::Digit0 => 111053830,
        WinitKeyCode::Digit1 => 111053894,
        WinitKeyCode::Digit2 => 111053958,
        WinitKeyCode::Digit3 => 111054022,
        WinitKeyCode::Digit4 => 111054086,
        WinitKeyCode::Digit5 => 111054150,
        WinitKeyCode::Digit6 => 111054214,
        WinitKeyCode::Digit7 => 111054278,
        WinitKeyCode::Digit8 => 111054342,
        WinitKeyCode::Digit9 => 111054406,
        WinitKeyCode::Space => 118257989,
        WinitKeyCode::Tab => 102512771,
        WinitKeyCode::Enter => 116178053,
        WinitKeyCode::Escape => 121510214,
        WinitKeyCode::Backspace => 102529353,
        WinitKeyCode::Backquote => 102668617,
        WinitKeyCode::Minus => 111066309,
        WinitKeyCode::Equal => 119290629,
        WinitKeyCode::BracketLeft => 120380683,
        WinitKeyCode::BracketRight => 120397068,
        WinitKeyCode::Backslash => 102660617,
        WinitKeyCode::Semicolon => 106822537,
        WinitKeyCode::Quote => 123640133,
        WinitKeyCode::Comma => 117291077,
        WinitKeyCode::Period => 106821894,
        WinitKeyCode::Slash => 114194949,
        WinitKeyCode::ShiftLeft => 109894921,
        WinitKeyCode::ShiftRight => 109911306,
        WinitKeyCode::ControlLeft => 117234955,
        WinitKeyCode::ControlRight => 117251340,
        WinitKeyCode::AltLeft => 114089223,
        WinitKeyCode::AltRight => 114105608,
        WinitKeyCode::SuperLeft => 123526409,
        WinitKeyCode::SuperRight => 123542794,
        WinitKeyCode::CapsLock => 102529736,
        WinitKeyCode::NumLock => 123501255,
        WinitKeyCode::ScrollLock => 104626890,
        WinitKeyCode::PrintScreen => 120372107,
        WinitKeyCode::Pause => 102660421,
        WinitKeyCode::Insert => 116284678,
        WinitKeyCode::Delete => 106862918,
        WinitKeyCode::Home => 117291332,
        WinitKeyCode::End => 116250883,
        WinitKeyCode::PageUp => 102415366,
        WinitKeyCode::PageDown => 102693768,
        WinitKeyCode::ArrowUp => 120241159,
        WinitKeyCode::ArrowDown => 120519561,
        WinitKeyCode::ArrowLeft => 120380681,
        WinitKeyCode::ArrowRight => 120397066,
        WinitKeyCode::Numpad0 => 123505671,
        WinitKeyCode::Numpad1 => 123505735,
        WinitKeyCode::Numpad2 => 123505799,
        WinitKeyCode::Numpad3 => 123505863,
        WinitKeyCode::Numpad4 => 123505927,
        WinitKeyCode::Numpad5 => 123505991,
        WinitKeyCode::Numpad6 => 123506055,
        WinitKeyCode::Numpad7 => 123506119,
        WinitKeyCode::Numpad8 => 123506183,
        WinitKeyCode::Numpad9 => 123506247,
        WinitKeyCode::NumpadAdd => 123509001,
        WinitKeyCode::NumpadSubtract => 123501838,
        WinitKeyCode::NumpadMultiply => 123575886,
        WinitKeyCode::NumpadDivide => 123509068,
        WinitKeyCode::NumpadDecimal => 123484941,
        WinitKeyCode::NumpadEnter => 123518091,
        WinitKeyCode::F1 => 51956802,
        WinitKeyCode::F2 => 53005442,
        WinitKeyCode::F3 => 54054082,
        WinitKeyCode::F4 => 55102722,
        WinitKeyCode::F5 => 56151362,
        WinitKeyCode::F6 => 57200002,
        WinitKeyCode::F7 => 58248642,
        WinitKeyCode::F8 => 59297282,
        WinitKeyCode::F9 => 60345922,
        WinitKeyCode::F10 => 51784707,
        WinitKeyCode::F11 => 51784771,
        WinitKeyCode::F12 => 51784835,
        WinitKeyCode::F13 => 51784899,
        WinitKeyCode::F14 => 51784963,
        WinitKeyCode::F15 => 51785027,
        WinitKeyCode::F16 => 51785091,
        WinitKeyCode::F17 => 51785155,
        WinitKeyCode::F18 => 51785219,
        WinitKeyCode::F19 => 51785283,
        WinitKeyCode::F20 => 52841475,
        WinitKeyCode::F21 => 52841539,
        WinitKeyCode::F22 => 52841603,
        WinitKeyCode::F23 => 52841667,
        WinitKeyCode::F24 => 52841731,
        WinitKeyCode::Unsupported => 116177163,
    }
}

spec fn winit_of_mark(mark: int) -> WinitKeyCode {
    if mark == 106901572 {
        WinitKeyCode::KeyA
    } else if mark == 106901636 {
        WinitKeyCode::KeyB
    } else if mark == 106901700 {
        WinitKeyCode::KeyC
    } else if mark == 106901764 {
        WinitKeyCode::KeyD
    } else if mark == 106901828 {
        WinitKeyCode::KeyE
    } else if mark == 106901892 {
        WinitKeyCode::KeyF
    } else if mark == 106901956 {
        WinitKeyCode::KeyG
    } else if mark == 106902020 {
        WinitKeyCode::KeyH
    } else if mark == 106902084 {
        WinitKeyCode::KeyI
    } else if mark == 106902148 {
        WinitKeyCode::KeyJ
    } else if mark == 106902212 {
        WinitKeyCode::KeyK
    } else if mark == 106902276 {
        WinitKeyCode::KeyL
    } else if mark == 106902340 {
        WinitKeyCode::KeyM
    } else if mark == 106902404 {
        WinitKeyCode::KeyN
    } else if mark == 106902468 {
        WinitKeyCode::KeyO
    } else if mark == 106902532 {
        WinitKeyCode::KeyP
    } else if mark == 106902596 {
        WinitKeyCode::KeyQ
    } else if mark == 106902660 {
        WinitKeyCode::KeyR
    } else if mark == 106902724 {
        WinitKeyCode::KeyS
    } else if mark == 106902788 {
        WinitKeyCode::KeyT
    } else if mark == 106902852 {
        WinitKeyCode::KeyU
    } else if mark == 106902916 {
        WinitKeyCode::KeyV
    } else if mark == 106902980 {
        WinitKeyCode::KeyW
    } else if mark == 106903044 {
        WinitKeyCode::KeyX
    } else if mark == 106903108 {
        WinitKeyCode::KeyY
    } else if mark == 106903172 {
        WinitKeyCode::KeyZ
    } else if mark == 111053830 {
        WinitKeyCode::Digit0
    } else if mark == 111053894 {
        WinitKeyCode::Digit1
    } else if mark == 111053958 {
        WinitKeyCode::Digit2
    } else if mark == 111054022 {
        WinitKeyCode::Digit3
    } else if mark == 111054086 {
        WinitKeyCode::Digit4
    } else if mark == 111054150 {
        WinitKeyCode::Digit5
    } else if mark == 111054214 {
        WinitKeyCode::Digit6
    } else if mark == 111054278 {
        WinitKeyCode::Digit7
    } else if mark == 111054342 {
        WinitKeyCode::Digit8
    } else if mark == 111054406 {
        WinitKeyCode::Digit9
    } else if mark == 118257989 {
        WinitKeyCode::Space
    } else if mark == 102512771 {
        WinitKeyCode::Tab
    } else if mark == 116178053 {
        WinitKeyCode::Enter
    } else if mark == 121510214 {
        WinitKeyCode::Escape
    } else if mark == 102529353 {
        WinitKeyCode::Backspace
    } else if mark == 102668617 {
        WinitKeyCode::Backquote
    } else if mark == 111066309 {
        WinitKeyCode::Minus
    } else if mark == 119290629 {
        WinitKeyCode::Equal
    } else if mark == 120380683 {
        WinitKeyCode::BracketLeft
    } else if mark == 120397068 {
        WinitKeyCode::BracketRight
    } else if mark == 102660617 {
        WinitKeyCode::Backslash
    } else if mark == 106822537 {
        WinitKeyCode::Semicolon
    } else if mark == 123640133 {
        WinitKeyCode::Quote
    } else if mark == 117291077 {
        WinitKeyCode::Comma
    } else if mark == 106821894 {
        WinitKeyCode::Period
    } else if mark == 114194949 {
        WinitKeyCode::Slash
    } else if mark == 109894921 {
        WinitKeyCode::ShiftLeft
    } else if mark == 109911306 {
        WinitKeyCode::ShiftRight
    } else if mark == 117234955 {
        WinitKeyCode::ControlLeft
    } else if mark == 117251340 {
        WinitKeyCode::ControlRight
    } else if mark == 114089223 {
        WinitKeyCode::AltLeft
    } else if mark == 114105608 {
        WinitKeyCode::AltRight
    } else if mark == 123526409 {
        WinitKeyCode::SuperLeft
    } else if mark == 123542794 {
        WinitKeyCode::SuperRight
    } else if mark == 102529736 {
        WinitKeyCode::CapsLock
    } else if mark == 123501255 {
        WinitKeyCode::NumLock
    } else if mark == 104626890 {
        WinitKeyCode::ScrollLock
    } else if mark == 120372107 {
        WinitKeyCode::PrintScreen
    } else if mark == 102660421 {
        WinitKeyCode::Pause
    } else if mark == 116284678 {
        WinitKeyCode::Insert
    } else if mark == 106862918 {
        WinitKeyCode::Delete
    } else if mark == 117291332 {
        WinitKeyCode::Home
    } else if mark == 116250883 {
        WinitKeyCode::End
    } else if mark == 102415366 {
        WinitKeyCode::PageUp
    } else if mark == 102693768 {
        WinitKeyCode::PageDown
    } else if mark == 120241159 {
        WinitKeyCode::ArrowUp
    } else if mark == 120519561 {
        WinitKeyCode::ArrowDown
    } else if mark == 120380681 {
        WinitKeyCode::ArrowLeft
    } else if mark == 120397066 {
        WinitKeyCode::ArrowRight
    } else if mark == 123505671 {
        WinitKeyCode::Numpad0
    } else if mark == 123505735 {
        WinitKeyCode::Numpad1
    } else if mark == 123505799 {
        WinitKeyCode::Numpad2
    } else if mark == 123505863 {
        WinitKeyCode::Numpad3
    } else if mark == 123505927 {
        WinitKeyCode::Numpad4
    } else if mark == 123505991 {
        WinitKeyCode::Numpad5
    } else if mark == 123506055 {
        WinitKeyCode::Numpad6
    } else if mark == 123506119 {
        WinitKeyCode::Numpad7
    } else if mark == 123506183 {
        WinitKeyCode::Numpad8
    } else if mark == 123506247 {
        WinitKeyCode::Numpad9
    } else if mark == 123509001 {
        WinitKeyCode::NumpadAdd
    } else if mark == 123501838 {
        WinitKeyCode::NumpadSubtract
    } else if mark == 123575886 {
        WinitKeyCode::NumpadMultiply
    } else if mark == 123509068 {
        WinitKeyCode::NumpadDivide
    } else if mark == 123484941 {
        WinitKeyCode::NumpadDecimal
    } else if mark == 123518091 {
        WinitKeyCode::NumpadEnter
    } else if mark == 51956802 {
        WinitKeyCode::F1
    } else if mark == 53005442 {
        WinitKeyCode::F2
    } else if mark == 54054082 {
        WinitKeyCode::F3
    } else if mark == 55102722 {
        WinitKeyCode::F4
    } else if mark == 56151362 {
        WinitKeyCode::F5
    } else if mark == 57200002 {
        WinitKeyCode::F6
    } else if mark == 58248642 {
        WinitKeyCode::F7
    } else if mark == 59297282 {
        WinitKeyCode::F8
    } else if mark == 60345922 {
        WinitKeyCode::F9
    } else if mark == 51784707 {
        WinitKeyCode::F10
    } else if mark == 51784771 {
        WinitKeyCode::F11
    } else if mark == 51784835 {
        WinitKeyCode::F12
    } else if mark == 51784899 {
        WinitKeyCode::F13
    } else if mark == 51784963 {
        WinitKeyCode::F14
    } else if mark == 51785027 {
        WinitKeyCode::F15
    } else if mark == 51785091 {
        WinitKeyCode::F16
    } else if mark == 51785155 {
        WinitKeyCode::F17
    } else if mark == 51785219 {
        WinitKeyCode::F18
    } else if mark == 51785283 {
        WinitKeyCode::F19
    } else if mark == 52841475 {
        WinitKeyCode::F20
    } else if mark == 52841539 {
        WinitKeyCode::F21
    } else if mark == 52841603 {
        WinitKeyCode::F22
    } else if mark == 52841667 {
        WinitKeyCode::F23
    } else if mark == 52841731 {
        WinitKeyCode::F24
    } else {
        WinitKeyCode::Unsupported
    }
}

proof fn lemma_winit_mark(value: WinitKeyCode)
    ensures
        winit_mark(winit_key_name(value)) == winit_mark_of(value),
{
    match value {
        WinitKeyCode::KeyA => {
            reveal_strlit("KeyA");
        },
        WinitKeyCode::KeyB => {
            reveal_strlit("KeyB");
        },
        WinitKeyCode::KeyC => {
            reveal_strlit("KeyC");
        },
        WinitKeyCode::KeyD => {
            reveal_strlit("KeyD");
        },
        WinitKeyCode::KeyE => {
            reveal_strlit("KeyE");
        },
        WinitKeyCode::KeyF => {
            reveal_strlit("KeyF");
        },
        WinitKeyCode::KeyG => {
            reveal_strlit("KeyG");
        },
        WinitKeyCode::KeyH => {
            reveal_strlit("KeyH");
        },
        WinitKeyCode::KeyI => {
            reveal_strlit("KeyI");
        },
        WinitKeyCode::KeyJ => {
            reveal_strlit("KeyJ");
        },
        WinitKeyCode::KeyK => {
            reveal_strlit("KeyK");
        },
        WinitKeyCode::KeyL => {
            reveal_strlit("KeyL");
        },
        WinitKeyCode::KeyM => {
            reveal_strlit("KeyM");
        },
        WinitKeyCode::KeyN => {
            reveal_strlit("KeyN");
        },
        WinitKeyCode::KeyO => {
            reveal_strlit("KeyO");
        },
        WinitKeyCode::KeyP => {
            reveal_strlit("KeyP");
        },
        WinitKeyCode::KeyQ => {
            reveal_strlit("KeyQ");
        },
        WinitKeyCode::KeyR => {
            reveal_strlit("KeyR");
        },
        WinitKeyCode::KeyS => {
            reveal_strlit("KeyS");
        },
        WinitKeyCode::KeyT => {
            reveal_strlit("KeyT");
        },
        WinitKeyCode::KeyU => {
            reveal_strlit("KeyU");
        },
        WinitKeyCode::KeyV => {
            reveal_strlit("KeyV");
        },
        WinitKeyCode::KeyW => {
            reveal_strlit("KeyW");
        },
        WinitKeyCode::KeyX => {
            reveal_strlit("KeyX");
        },
        WinitKeyCode::KeyY => {
            reveal_strlit("KeyY");
        },
        WinitKeyCode::KeyZ => {
            reveal_strlit("KeyZ");
        },
        WinitKeyCode::Digit0 => {
            reveal_strlit("Digit0");
        },
        WinitKeyCode::Digit1 => {
            reveal_strlit("Digit1");
        },
        WinitKeyCode::Digit2 => {
            reveal_strlit("Digit2");
        },
        WinitKeyCode::Digit3 => {
            reveal_strlit("Digit3");
        },
        WinitKeyCode::Digit4 => {
            reveal_strlit("Digit4");
        },
        WinitKeyCode::Digit5 => {
            reveal_strlit("Digit5");
        },
        WinitKeyCode::Digit6 => {
            reveal_strlit("Digit6");
        },
        WinitKeyCode::Digit7 => {
            reveal_strlit("Digit7");
        },
        WinitKeyCode::Digit8 => {
            reveal_strlit("Digit8");
        },
        WinitKeyCode::Digit9 => {
            reveal_strlit("Digit9");
        },
        WinitKeyCode::Space => {
            reveal_strlit("Space");
        },
        WinitKeyCode::Tab => {
            reveal_strlit("Tab");
        },
        WinitKeyCode::Enter => {
            reveal_strlit("Enter");
        },
        WinitKeyCode::Escape => {
            reveal_strlit("Escape");
        },
        WinitKeyCode::Backspace => {
            reveal_strlit("Backspace");
        },
        WinitKeyCode::Backquote => {
            reveal_strlit("Backquote");
        },
        WinitKeyCode::Minus => {
            reveal_strlit("Minus");
        },
        WinitKeyCode::Equal => {
            reveal_strlit("Equal");
        },
        WinitKeyCode::BracketLeft => {
            reveal_strlit("BracketLeft");
        },
        WinitKeyCode::BracketRight => {
            reveal_strlit("BracketRight");
        },
        WinitKeyCode::Backslash => {
            reveal_strlit("Backslash");
        },
        WinitKeyCode::Semicolon => {
            reveal_strlit("Semicolon");
        },
        WinitKeyCode::Quote => {
            reveal_strlit("Quote");
        },
        WinitKeyCode::Comma => {
            reveal_strlit("Comma");
        },
        WinitKeyCode::Period => {
            reveal_strlit("Period");
        },
        WinitKeyCode::Slash => {
            reveal_strlit("Slash");
        },
        WinitKeyCode::ShiftLeft => {
            reveal_strlit("ShiftLeft");
        },
        WinitKeyCode::ShiftRight => {
            reveal_strlit("ShiftRight");
        },
        WinitKeyCode::ControlLeft => {
            reveal_strlit("ControlLeft");
        },
        WinitKeyCode::ControlRight => {
            reveal_strlit("ControlRight");
        },
        WinitKeyCode::AltLeft => {
            reveal_strlit("AltLeft");
        },
        WinitKeyCode::AltRight => {
            reveal_strlit("AltRight");
        },
        WinitKeyCode::SuperLeft => {
            reveal_strlit("SuperLeft");
        },
        WinitKeyCode::SuperRight => {
            reveal_strlit("SuperRight");
        },
        WinitKeyCode::CapsLock => {
            reveal_strlit("CapsLock");
        },
        WinitKeyCode::NumLock => {
            reveal_strlit("NumLock");
        },
        WinitKeyCode::ScrollLock => {
            reveal_strlit("ScrollLock");
        },
        WinitKeyCode::PrintScreen => {
            reveal_strlit("PrintScreen");
        },
        WinitKeyCode::Pause => {
            reveal_strlit("Pause");
        },
        WinitKeyCode::Insert => {
            reveal_strlit("Insert");
        },
        WinitKeyCode::Delete => {
            reveal_strlit("Delete");
        },
        WinitKeyCode::Home => {
            reveal_strlit("Home");
        },
        WinitKeyCode::End => {
            reveal_strlit("End");
        },
        WinitKeyCode::PageUp => {
            reveal_strlit("PageUp");
        },
        WinitKeyCode::PageDown => {
            reveal_strlit("PageDown");
        },
        WinitKeyCode::ArrowUp => {
            reveal_strlit("ArrowUp");
        },
        WinitKeyCode::ArrowDown => {
            reveal_strlit("ArrowDown");
        },
        WinitKeyCode::ArrowLeft => {
            reveal_strlit("ArrowLeft");
        },
        WinitKeyCode::ArrowRight => {
            reveal_strlit("ArrowRight");
        },
        WinitKeyCode::Numpad0 => {
            reveal_strlit("Numpad0");
        },
        WinitKeyCode::Numpad1 => {
            reveal_strlit("Numpad1");
        },
        WinitKeyCode::Numpad2 => {
            reveal_strlit("Numpad2");
        },
        WinitKeyCode::Numpad3 => {
            reveal_strlit("Numpad3");
        },
        WinitKeyCode::Numpad4 => {
            reveal_strlit("Numpad4");
        },
        WinitKeyCode::Numpad5 => {
            reveal_strlit("Numpad5");
        },
        WinitKeyCode::Numpad6 => {
            reveal_strlit("Numpad6");
        },
        WinitKeyCode::Numpad7 => {
            reveal_strlit("Numpad7");
        },
        WinitKeyCode::Numpad8 => {
            reveal_strlit("Numpad8");
        },
        WinitKeyCode::Numpad9 => {
            reveal_strlit("Numpad9");
        },
        WinitKeyCode::NumpadAdd => {
            reveal_strlit("NumpadAdd");
        },
        WinitKeyCode::NumpadSubtract => {
            reveal_strlit("NumpadSubtract");
        },
        WinitKeyCode::NumpadMultiply => {
            reveal_strlit("NumpadMultiply");
        },
        WinitKeyCode::NumpadDivide => {
            reveal_strlit("NumpadDivide");
        },
        WinitKeyCode::NumpadDecimal => {
            reveal_strlit("NumpadDecimal");
        },
        WinitKeyCode::NumpadEnter => {
            reveal_strlit("NumpadEnter");
        },
        WinitKeyCode::F1 => {
            reveal_strlit("F1");
        },
        WinitKeyCode::F2 => {
            reveal_strlit("F2");
        },
        WinitKeyCode::F3 => {
            reveal_strlit("F3");
        },
        WinitKeyCode::F4 => {
            reveal_strlit("F4");
        },
        WinitKeyCode::F5 => {
            reveal_strlit("F5");
        },
        WinitKeyCode::F6 => {
            reveal_strlit("F6");
        },
        WinitKeyCode::F7 => {
            reveal_strlit("F7");
        },
        WinitKeyCode::F8 => {
            reveal_strlit("F8");
        },
        WinitKeyCode::F9 => {
            reveal_strlit("F9");
        },
        WinitKeyCode::F10 => {
            reveal_strlit("F10");
        },
        WinitKeyCode::F11 => {
            reveal_strlit("F11");
        },
        WinitKeyCode::F12 => {
            reveal_strlit("F12");
        },
        WinitKeyCode::F13 => {
            reveal_strlit("F13");
        },
        WinitKeyCode::F14 => {
            reveal_strlit("F14");
        },
        WinitKeyCode::F15 => {
            reveal_strlit("F15");
        },
        WinitKeyCode::F16 => {
            reveal_strlit("F16");
        },
        WinitKeyCode::F17 => {
            reveal_strlit("F17");
        },
        WinitKeyCode::F18 => {
            reveal_strlit("F18");
        },
        WinitKeyCode::F19 => {
            reveal_strlit("F19");
        },
        WinitKeyCode::F20 => {
            reveal_strlit("F20");
        },
        WinitKeyCode::F21 => {
            reveal_strlit("F21");
        },
        WinitKeyCode::F22 => {
            reveal_strlit("F22");
        },
        WinitKeyCode::F23 => {
            reveal_strlit("F23");
        },
        WinitKeyCode::F24 => {
            reveal_strlit("F24");
        },
        WinitKeyCode::Unsupported => {
            reveal_strlit("Unsupported");
        },
    }
}

proof fn lemma_winit_of_mark(value: WinitKeyCode)
    ensures
        winit_of_mark(winit_mark_of(value)) == value,
{
    match value {
        WinitKeyCode::KeyA => {},
        WinitKeyCode::KeyB => {},
        WinitKeyCode::KeyC => {},
        WinitKeyCode::KeyD => {},
        WinitKeyCode::KeyE => {},
        WinitKeyCode::KeyF => {},
        WinitKeyCode::KeyG => {},
        WinitKeyCode::KeyH => {},
        WinitKeyCode::KeyI => {},
        WinitKeyCode::KeyJ => {},
        WinitKeyCode::KeyK => {},
        WinitKeyCode::KeyL => {},
        WinitKeyCode::KeyM => {},
        WinitKeyCode::KeyN => {},
        WinitKeyCode::KeyO => {},
        WinitKeyCode::KeyP => {},
        WinitKeyCode::KeyQ => {},
        WinitKeyCode::KeyR => {},
        WinitKeyCode::KeyS => {},
        WinitKeyCode::KeyT => {},
        WinitKeyCode::KeyU => {},
        WinitKeyCode::KeyV => {},
        WinitKeyCode::KeyW => {},
        WinitKeyCode::KeyX => {},
        WinitKeyCode::KeyY => {},
        WinitKeyCode::KeyZ => {},
        WinitKeyCode::Digit0 => {},
        WinitKeyCode::Digit1 => {},
        WinitKeyCode::Digit2 => {},
        WinitKeyCode::Digit3 => {},
        WinitKeyCode::Digit4 => {},
        WinitKeyCode::Digit5 => {},
        WinitKeyCode::Digit6 => {},
        WinitKeyCode::Digit7 => {},
        WinitKeyCode::Digit8 => {},
        WinitKeyCode::Digit9 => {},
        WinitKeyCode::Space => {},
        WinitKeyCode::Tab => {},
        WinitKeyCode::Enter => {},
        WinitKeyCode::Escape => {},
        WinitKeyCode::Backspace => {},
        WinitKeyCode::Backquote => {},
        WinitKeyCode::Minus => {},
        WinitKeyCode::Equal => {},
        WinitKeyCode::BracketLeft => {},
        WinitKeyCode::BracketRight => {},
        WinitKeyCode::Backslash => {},
        WinitKeyCode::Semicolon => {},
        WinitKeyCode::Quote => {},
        WinitKeyCode::Comma => {},
        WinitKeyCode::Period => {},
        WinitKeyCode::Slash => {},
        WinitKeyCode::ShiftLeft => {},
        WinitKeyCode::ShiftRight => {},
        WinitKeyCode::ControlLeft => {},
        WinitKeyCode::ControlRight => {},
        WinitKeyCode::AltLeft => {},
        WinitKeyCode::AltRight => {},
        WinitKeyCode::SuperLeft => {},
        WinitKeyCode::SuperRight => {},
        WinitKeyCode::CapsLock => {},
        WinitKeyCode::NumLock => {},
        WinitKeyCode::ScrollLock => {},
        WinitKeyCode::PrintScreen => {},
        WinitKeyCode::Pause => {},
        WinitKeyCode::Insert => {},
        WinitKeyCode::Delete => {},
        WinitKeyCode::Home => {},
        WinitKeyCode::End => {},
        WinitKeyCode::PageUp => {},
        WinitKeyCode::PageDown => {},
        WinitKeyCode::ArrowUp => {},
        WinitKeyCode::ArrowDown => {},
        WinitKeyCode::ArrowLeft => {},
        WinitKeyCode::ArrowRight => {},
        WinitKeyCode::Numpad0 => {},
        WinitKeyCode::Numpad1 => {},
        WinitKeyCode::Numpad2 => {},
        WinitKeyCode::Numpad3 => {},
        WinitKeyCode::Numpad4 => {},
        WinitKeyCode::Numpad5 => {},
        WinitKeyCode::Numpad6 => {},
        WinitKeyCode::Numpad7 => {},
        WinitKeyCode::Numpad8 => {},
        WinitKeyCode::Numpad9 => {},
        WinitKeyCode::NumpadAdd => {},
        WinitKeyCode::NumpadSubtract => {},
        WinitKeyCode::NumpadMultiply => {},
        WinitKeyCode::NumpadDivide => {},
        WinitKeyCode::NumpadDecimal => {},
        WinitKeyCode::NumpadEnter => {},
        WinitKeyCode::F1 => {},
        WinitKeyCode::F2 => {},
        WinitKeyCode::F3 => {},
        WinitKeyCode::F4 => {},
        WinitKeyCode::F5 => {},
        WinitKeyCode::F6 => {},
        WinitKeyCode::F7 => {},
        WinitKeyCode::F8 => {},
        WinitKeyCode::F9 => {},
        WinitKeyCode::F10 => {},
        WinitKeyCode::F11 => {},
        WinitKeyCode::F12 => {},
        WinitKeyCode::F13 => {},
        WinitKeyCode::F14 => {},
        WinitKeyCode::F15 => {},
        WinitKeyCode::F16 => {},
        WinitKeyCode::F17 => {},
        WinitKeyCode::F18 => {},
        WinitKeyCode::F19 => {},
        WinitKeyCode::F20 => {},
        WinitKeyCode::F21 => {},
        WinitKeyCode::F22 => {},
        WinitKeyCode::F23 => {},
        WinitKeyCode::F24 => {},
        WinitKeyCode::Unsupported => {},
    }
}

/// No two keyboard keys have the same name, so a name that was written is read as
/// the key it was written for.
pub proof fn lemma_winit_names_differ(a: WinitKeyCode, b: WinitKeyCode)
    requires
        winit_key_name(a) == winit_key_name(b),
    ensures
        a == b,
{
    lemma_winit_mark(a);
    lemma_winit_mark(b);
    lemma_winit_of_mark(a);
    lemma_winit_of_mark(b);
}

/// What tells the names of gamepad inputs apart: the first and the second to last
/// character.
spec fn gamepad_mark(s: Seq<char>) -> int {
    s[0] as int + 128 * if s.len() > 1 {
        s[s.len() - 2] as int
    } else {
        0
    }
}

spec fn gamepad_mark_of(value: GamepadInput) -> int {
    match value {
        GamepadInput::Button(Button::South) => 14931,
        GamepadInput::Button(Button::East) => 14789,
        GamepadInput::Button(Button::North) => 14926,
        GamepadInput::Button(Button::West) => 14807,
        GamepadInput::Button(Button::C) => 67,
        GamepadInput::Button(Button::Z) => 90,
        GamepadInput::Button(Button::LeftTrigger) => 13004,
        GamepadInput::Button(Button::LeftTrigger2) => 14668,
        GamepadInput::Button(Button::RightTrigger) => 13010,
        GamepadInput::Button(Button::RightTrigger2) => 14674,
        GamepadInput::Button(Button::Select) => 12755,
        GamepadInput::Button(Button::Start) => 14675,
        GamepadInput::Button(Button::Mode) => 12877,
        GamepadInput::Button(Button::LeftThumb) => 14028,
        GamepadInput::Button(Button::RightThumb) => 14034,
        GamepadInput::Button(Button::DPadUp) => 10948,
        GamepadInput::Button(Button::DPadDown) => 15300,
        GamepadInput::Button(Button::DPadLeft) => 13124,
        GamepadInput::Button(Button::DPadRight) => 13380,
        GamepadInput::Button(Button::Unknown) => 15317,
        GamepadInput::Axis(GamepadAxisDirection::LeftStickUp) => 10956,
        GamepadInput::Axis(GamepadAxisDirection::LeftStickDown) => 15308,
        GamepadInput::Axis(GamepadAxisDirection::LeftStickLeft) => 13132,
        GamepadInput::Axis(GamepadAxisDirection::LeftStickRight) => 13388,
        GamepadInput::Axis(GamepadAxisDirection::RightStickUp) => 10962,
        GamepadInput::Axis(GamepadAxisDirection::RightStickDown) => 15314,
        GamepadInput::Axis(GamepadAxisDirection::RightStickLeft) => 13138,
        GamepadInput::Axis(GamepadAxisDirection::RightStickRight) => 13394,
    }
}

spec fn gamepad_of_mark(mark: int) -> GamepadInput {
    if mark == 14931 {
        GamepadInput::Button(Button::South)
    } else if mark == 14789 {
        GamepadInput::Button(Button::East)
    } else if mark == 14926 {
        GamepadInput::Button(Button::North)
    } else if mark == 14807 {
        GamepadInput::Button(Button::West)
    } else if mark == 67 {
        GamepadInput::Button(Button::C)
    } else if mark == 90 {
        GamepadInput::Button(Button::Z)
    } else if mark == 13004 {
        GamepadInput::Button(Button::LeftTrigger)
    } else if mark == 14668 {
        GamepadInput::Button(Button::LeftTrigger2)
    } else if mark == 13010 {
        GamepadInput::Button(Button::RightTrigger)
    } else if mark == 14674 {
        GamepadInput::Button(Button::RightTrigger2)
    } else if mark == 12755 {
        GamepadInput::Button(Button::Select)
    } else if mark == 14675 {
        GamepadInput::Button(Button::Start)
    } else if mark == 12877 {
        GamepadInput::Button(Button::Mode)
    } else if mark == 14028 {
        GamepadInput::Button(Button::LeftThumb)
    } else if mark == 14034 {
        GamepadInput::Button(Button::RightThumb)
    } else if mark == 10948 {
        GamepadInput::Button(Button::DPadUp)
    } else if mark == 15300 {
        GamepadInput::Button(Button::DPadDown)
    } else if mark == 13124 {
        GamepadInput::Button(Button::DPadLeft)
    } else if mark == 13380 {
        GamepadInput::Button(Button::DPadRight)
    } else if mark == 10956 {
        GamepadInput::Axis(GamepadAxisDirection::LeftStickUp)
    } else if mark == 15308 {
        GamepadInput::Axis(GamepadAxisDirection::LeftStickDown)
    } else if mark == 13132 {
        GamepadInput::Axis(GamepadAxisDirection::LeftStickLeft)
    } else if mark == 13388 {
        GamepadInput::Axis(GamepadAxisDirection::LeftStickRight)
    } else if mark == 10962 {
        GamepadInput::Axis(GamepadAxisDirection::RightStickUp)
    } else if mark == 15314 {
        GamepadInput::Axis(GamepadAxisDirection::RightStickDown)
    } else if mark == 13138 {
        GamepadInput::Axis(GamepadAxisDirection::RightStickLeft)
    } else if mark == 13394 {
        GamepadInput::Axis(GamepadAxisDirection::RightStickRight)
    } else {
        GamepadInput::Button(Button::Unknown)
    }
}

proof fn lemma_gamepad_mark(value: GamepadInput)
    ensures
        gamepad_mark(gamepad_input_name(value)) == gamepad_mark_of(value),
        gamepad_of_mark(gamepad_mark_of(value)) == value,
{
    match value {
        GamepadInput::Button(Button::South) => {
            reveal_strlit("South");
        },
        GamepadInput::Button(Button::East) => {
            reveal_strlit("East");
        },
        GamepadInput::Button(Button::North) => {
            reveal_strlit("North");
        },
        GamepadInput::Button(Button::West) => {
            reveal_strlit("West");
        },
        GamepadInput::Button(Button::C) => {
            reveal_strlit("C");
        },
        GamepadInput::Button(Button::Z) => {
            reveal_strlit("Z");
        },
        GamepadInput::Button(Button::LeftTrigger) => {
            reveal_strlit("LeftTrigger");
        },
        GamepadInput::Button(Button::LeftTrigger2) => {
            reveal_strlit("LeftTrigger2");
        },
        GamepadInput::Button(Button::RightTrigger) => {
            reveal_strlit("RightTrigger");
        },
        GamepadInput::Button(Button::RightTrigger2) => {
            reveal_strlit("RightTrigger2");
        },
        GamepadInput::Button(Button::Select) => {
            reveal_strlit("Select");
        },
        GamepadInput::Button(Button::Start) => {
            reveal_strlit("Start");
        },
        GamepadInput::Button(Button::Mode) => {
            reveal_strlit("Mode");
        },
        GamepadInput::Button(Button::LeftThumb) => {
            reveal_strlit("LeftThumb");
        },
        GamepadInput::Button(Button::RightThumb) => {
            reveal_strlit("RightThumb");
        },
        GamepadInput::Button(Button::DPadUp) => {
            reveal_strlit("DPadUp");
        },
        GamepadInput::Button(Button::DPadDown) => {
            reveal_strlit("DPadDown");
        },
        GamepadInput::Button(Button::DPadLeft) => {
            reveal_strlit("DPadLeft");
        },
        GamepadInput::Button(Button::DPadRight) => {
            reveal_strlit("DPadRight");
        },
        GamepadInput::Button(Button::Unknown) => {
            reveal_strlit("Unknown");
        },
        GamepadInput::Axis(GamepadAxisDirection::LeftStickUp) => {
            reveal_strlit("LeftStickUp");
        },
        GamepadInput::Axis(GamepadAxisDirection::LeftStickDown) => {
            reveal_strlit("LeftStickDown");
        },
        GamepadInput::Axis(GamepadAxisDirection::LeftStickLeft) => {
            reveal_strlit("LeftStickLeft");
        },
        GamepadInput::Axis(GamepadAxisDirection::LeftStickRight) => {
            reveal_strlit("LeftStickRight");
        },
        GamepadInput::Axis(GamepadAxisDirection::RightStickUp) => {
            reveal_strlit("RightStickUp");
        },
        GamepadInput::Axis(GamepadAxisDirection::RightStickDown) => {
            reveal_strlit("RightStickDown");
        },
        GamepadInput::Axis(GamepadAxisDirection::RightStickLeft) => {
            reveal_strlit("RightStickLeft");
        },
        GamepadInput::Axis(GamepadAxisDirection::RightStickRight) => {
            reveal_strlit("RightStickRight");
        },
    }
}

/// No two gamepad inputs have the same name.
pub proof fn lemma_gamepad_names_differ(a: GamepadInput, b: GamepadInput)
    requires
        gamepad_input_name(a) == gamepad_input_name(b),
    ensures
        a == b,
{
    lemma_gamepad_mark(a);
    lemma_gamepad_mark(b);
}

/// What tells the names of phone keys apart: the length and the last character.
spec fn phone_mark(s: Seq<char>) -> int {
    s.len() + 64 * (s[s.len() - 1] as int)
}

spec fn phone_of_mark(mark: int) -> KeyCode {
    if mark == 4996 {
        KeyCode::DOWN
    } else if mark == 5380 {
        KeyCode::LEFT
    } else if mark == 5381 {
        KeyCode::RIGHT
    } else if mark == 4802 {
        KeyCode::OK
    } else if mark == 5709 {
        KeyCode::LEFT_SOFT_KEY
    } else if mark == 5710 {
        KeyCode::RIGHT_SOFT_KEY
    } else if mark == 5253 || mark == 5251 {
        KeyCode::CLEAR
    } else if mark == 4868 {
        KeyCode::CALL
    } else if mark == 5126 {
        KeyCode::HANGUP
    } else if mark == 5129 {
        KeyCode::VOLUME_UP
    } else if mark == 5003 {
        KeyCode::VOLUME_DOWN
    } else if mark == 3076 || mark == 3073 {
        KeyCode::NUM0
    } else if mark == 3140 || mark == 3137 {
        KeyCode::NUM1
    } else if mark == 3204 || mark == 3201 {
        KeyCode::NUM2
    } else if mark == 3268 || mark == 3265 {
        KeyCode::NUM3
    } else if mark == 3332 || mark == 3329 {
        KeyCode::NUM4
    } else if mark == 3396 || mark == 3393 {
        KeyCode::NUM5
    } else if mark == 3460 || mark == 3457 {
        KeyCode::NUM6
    } else if mark == 3524 || mark == 3521 {
        KeyCode::NUM7
    } else if mark == 3588 || mark == 3585 {
        KeyCode::NUM8
    } else if mark == 3652 || mark == 3649 {
        KeyCode::NUM9
    } else if mark == 4612 || mark == 2241 {
        KeyCode::HASH
    } else if mark == 5252 || mark == 2689 {
        KeyCode::STAR
    } else {
        KeyCode::UP
    }
}

proof fn lemma_phone_mark(value: KeyCode)
    ensures
        phone_of_mark(phone_mark(phone_key_name(value))) == value,
        phone_of_mark(phone_mark(phone_key_alias(value))) == value,
{
    match value {
        KeyCode::UP => {
            reveal_strlit("UP");
        },
        KeyCode::DOWN => {
            reveal_strlit("DOWN");
        },
        KeyCode::LEFT => {
            reveal_strlit("LEFT");
        },
        KeyCode::RIGHT => {
            reveal_strlit("RIGHT");
        },
        KeyCode::OK => {
            reveal_strlit("OK");
        },
        KeyCode::LEFT_SOFT_KEY => {
            reveal_strlit("LEFT_SOFT_KEY");
        },
        KeyCode::RIGHT_SOFT_KEY => {
            reveal_strlit("RIGHT_SOFT_KEY");
        },
        KeyCode::CLEAR => {
            reveal_strlit("CLEAR");
            reveal_strlit("CLR");
        },
        KeyCode::CALL => {
            reveal_strlit("CALL");
        },
        KeyCode::HANGUP => {
            reveal_strlit("HANGUP");
        },
        KeyCode::VOLUME_UP => {
            reveal_strlit("VOLUME_UP");
        },
        KeyCode::VOLUME_DOWN => {
            reveal_strlit("VOLUME_DOWN");
        },
        KeyCode::NUM0 => {
            reveal_strlit("NUM0");
            reveal_strlit("0");
        },
        KeyCode::NUM1 => {
            reveal_strlit("NUM1");
            reveal_strlit("1");
        },
        KeyCode::NUM2 => {
            reveal_strlit("NUM2");
            reveal_strlit("2");
        },
        KeyCode::NUM3 => {
            reveal_strlit("NUM3");
            reveal_strlit("3");
        },
        KeyCode::NUM4 => {
            reveal_strlit("NUM4");
            reveal_strlit("4");
        },
        KeyCode::NUM5 => {
            reveal_strlit("NUM5");
            reveal_strlit("5");
        },
        KeyCode::NUM6 => {
            reveal_strlit("NUM6");
            reveal_strlit("6");
        },
        KeyCode::NUM7 => {
            reveal_strlit("NUM7");
            reveal_strlit("7");
        },
        KeyCode::NUM8 => {
            reveal_strlit("NUM8");
            reveal_strlit("8");
        },
        KeyCode::NUM9 => {
            reveal_strlit("NUM9");
            reveal_strlit("9");
        },
        KeyCode::HASH => {
            reveal_strlit("HASH");
            reveal_strlit("#");
        },
        KeyCode::STAR => {
            reveal_strlit("STAR");
            reveal_strlit("*");
        },
    }
}

/// No text names two phone keys.
pub proof fn lemma_phone_names_differ(a: KeyCode, b: KeyCode, text: Seq<char>)
    requires
        names_phone_key(a, text),
        names_phone_key(b, text),
    ensures
        a == b,
{
    lemma_phone_mark(a);
    lemma_phone_mark(b);
}

// ---------------------------------------------------------------------------
// How keys are named

/// The phone key of a digit.
pub open spec fn number_key(digit: int) -> KeyCode {
    if digit == 0 {
        KeyCode::NUM0
    } else if digit == 1 {
        KeyCode::NUM1
    } else if digit == 2 {
        KeyCode::NUM2
    } else if digit == 3 {
        KeyCode::NUM3
    } else if digit == 4 {
        KeyCode::NUM4
    } else if digit == 5 {
        KeyCode::NUM5
    } else if digit == 6 {
        KeyCode::NUM6
    } else if digit == 7 {
        KeyCode::NUM7
    } else if digit == 8 {
        KeyCode::NUM8
    } else {
        KeyCode::NUM9
    }
}

/// The keyboard key of a digit.
pub open spec fn digit_key(digit: int) -> WinitKeyCode {
    if digit == 0 {
        WinitKeyCode::Digit0
    } else if digit == 1 {
        WinitKeyCode::Digit1
    } else if digit == 2 {
        WinitKeyCode::Digit2
    } else if digit == 3 {
        WinitKeyCode::Digit3
    } else if digit == 4 {
        WinitKeyCode::Digit4
    } else if digit == 5 {
        WinitKeyCode::Digit5
    } else if digit == 6 {
        WinitKeyCode::Digit6
    } else if digit == 7 {
        WinitKeyCode::Digit7
    } else if digit == 8 {
        WinitKeyCode::Digit8
    } else {
        WinitKeyCode::Digit9
    }
}

/// The keys of the digits are named after them: on the phone by the digit too.
pub proof fn lemma_digit_keys_are_named_after_their_digits(digit: int)
    requires
        0 <= digit <= 9,
    ensures
        phone_key_name(number_key(digit)) == "NUM"@ + decimal(digit as nat),
        phone_key_alias(number_key(digit)) == decimal(digit as nat),
        winit_key_name(digit_key(digit)) == "Digit"@ + decimal(digit as nat),
{
    reveal_strlit("NUM");
    reveal_strlit("Digit");
    reveal_strlit("0");
    reveal_strlit("NUM0");
    reveal_strlit("Digit0");
    reveal_strlit("1");
    reveal_strlit("NUM1");
    reveal_strlit("Digit1");
    reveal_strlit("2");
    reveal_strlit("NUM2");
    reveal_strlit("Digit2");
    reveal_strlit("3");
    reveal_strlit("NUM3");
    reveal_strlit("Digit3");
    reveal_strlit("4");
    reveal_strlit("NUM4");
    reveal_strlit("Digit4");
    reveal_strlit("5");
    reveal_strlit("NUM5");
    reveal_strlit("Digit5");
    reveal_strlit("6");
    reveal_strlit("NUM6");
    reveal_strlit("Digit6");
    reveal_strlit("7");
    reveal_strlit("NUM7");
    reveal_strlit("Digit7");
    reveal_strlit("8");
    reveal_strlit("NUM8");
    reveal_strlit("Digit8");
    reveal_strlit("9");
    reveal_strlit("NUM9");
    reveal_strlit("Digit9");
    let text = decimal(digit as nat);
    assert(text.len() == 1 && text[0] as u32 == 48 + digit);
    assert(phone_key_name(number_key(digit)) =~= "NUM"@ + text);
    assert(phone_key_alias(number_key(digit)) =~= text);
    assert(winit_key_name(digit_key(digit)) =~= "Digit"@ + text);
}

/// The directions are named after the stick and where it leans.
pub proof fn lemma_directions_are_named_after_their_sticks()
    ensures
        axis_name(GamepadAxisDirection::LeftStickUp) == "LeftStick"@ + "Up"@,
        axis_name(GamepadAxisDirection::LeftStickDown) == "LeftStick"@ + "Down"@,
        axis_name(GamepadAxisDirection::LeftStickLeft) == "LeftStick"@ + "Left"@,
        axis_name(GamepadAxisDirection::LeftStickRight) == "LeftStick"@ + "Right"@,
        axis_name(GamepadAxisDirection::RightStickUp) == "RightStick"@ + "Up"@,
        axis_name(GamepadAxisDirection::RightStickDown) == "RightStick"@ + "Down"@,
        axis_name(GamepadAxisDirection::RightStickLeft) == "RightStick"@ + "Left"@,
        axis_name(GamepadAxisDirection::RightStickRight) == "RightStick"@ + "Right"@,
{
    reveal_strlit("LeftStick");
    reveal_strlit("RightStick");
    reveal_strlit("Up");
    reveal_strlit("Down");
    reveal_strlit("Left");
    reveal_strlit("Right");
    reveal_strlit("LeftStickUp");
    assert(axis_name(GamepadAxisDirection::LeftStickUp) =~= "LeftStick"@ + "Up"@);
    reveal_strlit("LeftStickDown");
    assert(axis_name(GamepadAxisDirection::LeftStickDown) =~= "LeftStick"@ + "Down"@);
    reveal_strlit("LeftStickLeft");
    assert(axis_name(GamepadAxisDirection::LeftStickLeft) =~= "LeftStick"@ + "Left"@);
    reveal_strlit("LeftStickRight");
    assert(axis_name(GamepadAxisDirection::LeftStickRight) =~= "LeftStick"@ + "Right"@);
    reveal_strlit("RightStickUp");
    assert(axis_name(GamepadAxisDirection::RightStickUp) =~= "RightStick"@ + "Up"@);
    reveal_strlit("RightStickDown");
    assert(axis_name(GamepadAxisDirection::RightStickDown) =~= "RightStick"@ + "Down"@);
    reveal_strlit("RightStickLeft");
    assert(axis_name(GamepadAxisDirection::RightStickLeft) =~= "RightStick"@ + "Left"@);
    reveal_strlit("RightStickRight");
    assert(axis_name(GamepadAxisDirection::RightStickRight) =~= "RightStick"@ + "Right"@);
}

/// The other names of phone keys: the signs on them, and a short one for CLEAR.
pub proof fn lemma_short_names()
    ensures
        names_phone_key(KeyCode::STAR, "*"@),
        names_phone_key(KeyCode::HASH, "#"@),
        names_phone_key(KeyCode::CLEAR, "CLR"@),
        names_phone_key(KeyCode::STAR, "STAR"@),
        names_phone_key(KeyCode::HASH, "HASH"@),
        names_phone_key(KeyCode::CLEAR, "CLEAR"@),
{
}

} // verus!
