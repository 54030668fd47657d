//! Hotkeys: key names from the settings, and the decision of which action a
//! set of pressed keys triggers.
//!
//! Reading the keyboard is left to the caller, which hands over the keys
//! that are down.

use vstd::prelude::*;
use std::time::Instant;
use crate::clock::{elapsed_millis, instant_now};
use crate::config::{HotkeyBinding, HotkeyConfig};
use crate::text::{chars_eq, chars_of, lowercase_of, to_lowercase};

verus! {

/// Least time between two triggered actions, in milliseconds.
pub const MIN_ACTION_INTERVAL_MS: u128 = 200;

/// A key of the keyboard that a hotkey can name or that modifies one.
#[derive(Debug, Clone, Copy, PartialEq, Eq, Structural, Hash)]
pub enum Key {
    Numpad0,
    Numpad1,
    Numpad2,
    Numpad3,
    Numpad4,
    Numpad5,
    Numpad6,
    Numpad7,
    Numpad8,
    Numpad9,
    NumpadAdd,
    NumpadSubtract,
    NumpadMultiply,
    NumpadDivide,
    NumpadDecimal,
    F1,
    F2,
    F3,
    F4,
    F5,
    F6,
    F7,
    F8,
    F9,
    F10,
    F11,
    F12,
    A,
    B,
    C,
    D,
    E,
    F,
    G,
    H,
    I,
    J,
    K,
    L,
    M,
    N,
    O,
    P,
    Q,
    R,
    S,
    T,
    U,
    V,
    W,
    X,
    Y,
    Z,
    Key0,
    Key1,
    Key2,
    Key3,
    Key4,
    Key5,
    Key6,
    Key7,
    Key8,
    Key9,
    Space,
    Enter,
    Escape,
    Tab,
    Backspace,
    Insert,
    Delete,
    Home,
    End,
    PageUp,
    PageDown,
    LControl,
    RControl,
    LShift,
    RShift,
    LAlt,
    RAlt,
}

/// The action a hotkey asks for.
#[derive(Debug, Clone, Copy, PartialEq, Eq, Structural)]
pub enum HotkeyAction {
    /// Captures the whole screen.
    TranslateFullScreen,
    /// Captures the chosen region.
    TranslateRegion,
    /// Opens the region selector.
    SelectRegion,
    /// Opens the subtitle region selector.
    SelectSubtitleRegion,
    /// Shows or hides the preview of the subtitle areas.
    ToggleSubtitleAreasPreview,
    /// Turns real-time subtitles on or off.
    ToggleSubtitleMode,
    /// Hides the current translation.
    HideTranslation,
    /// Opens the settings window.
    OpenSettings,
}

/// The key a name from the settings denotes; an unknown name denotes `Numpad0`.
pub open spec fn key_from_name(s: Seq<char>) -> Key {
    if s == "Numpad0"@ {
        Key::Numpad0
    }     else if s == "Numpad1"@ {
        Key::Numpad1
    }     else if s == "Numpad2"@ {
        Key::Numpad2
    }     else if s == "Numpad3"@ {
        Key::Numpad3
    }     else if s == "Numpad4"@ {
        Key::Numpad4
    }     else if s == "Numpad5"@ {
        Key::Numpad5
    }     else if s == "Numpad6"@ {
        Key::Numpad6
    }     else if s == "Numpad7"@ {
        Key::Numpad7
    }     else if s == "Numpad8"@ {
        Key::Numpad8
    }     else if s == "Numpad9"@ {
        Key::Numpad9
    }     else if s == "NumpadAdd"@ {
        Key::NumpadAdd
    }     else if s == "NumpadSubtract"@ {
        Key::NumpadSubtract
    }     else if s == "NumpadMultiply"@ {
        Key::NumpadMultiply
    }     else if s == "NumpadDivide"@ {
        Key::NumpadDivide
    }     else if s == "NumpadDecimal"@ {
        Key::NumpadDecimal
    }     else if s == "F1"@ {
        Key::F1
    }     else if s == "F2"@ {
        Key::F2
    }     else if s == "F3"@ {
        Key::F3
    }     else if s == "F4"@ {
        Key::F4
    }     else if s == "F5"@ {
        Key::F5
    }     else if s == "F6"@ {
        Key::F6
    }     else if s == "F7"@ {
        Key::F7
    }     else if s == "F8"@ {
        Key::F8
    }     else if s == "F9"@ {
        Key::F9
    }     else if s == "F10"@ {
        Key::F10
    }     else if s == "F11"@ {
        Key::F11
    }     else if s == "F12"@ {
        Key::F12
    }     else if s == "A"@ {
        Key::A
    }     else if s == "B"@ {
        Key::B
    }     else if s == "C"@ {
        Key::C
    }     else if s == "D"@ {
        Key::D
    }     else if s == "E"@ {
        Key::E
    }     else if s == "F"@ {
        Key::F
    }     else if s == "G"@ {
        Key::G
    }     else if s == "H"@ {
        Key::H
    }     else if s == "I"@ {
        Key::I
    }     else if s == "J"@ {
        Key::J
    }     else if s == "K"@ {
        Key::K
    }     else if s == "L"@ {
        Key::L
    }     else if s == "M"@ {
        Key::M
    }     else if s == "N"@ {
        Key::N
    }     else if s == "O"@ {
        Key::O
    }     else if s == "P"@ {
        Key::P
    }     else if s == "Q"@ {
        Key::Q
    }     else if s == "R"@ {
        Key::R
    }     else if s == "S"@ {
        Key::S
    }     else if s == "T"@ {
        Key::T
    }     else if s == "U"@ {
        Key::U
    }     else if s == "V"@ {
        Key::V
    }     else if s == "W"@ {
        Key::W
    }     else if s == "X"@ {
        Key::X
    }     else if s == "Y"@ {
        Key::Y
    }     else if s == "Z"@ {
        Key::Z
    }     else if s == "0"@ {
        Key::Key0
    }     else if s == "1"@ {
        Key::Key1
    }     else if s == "2"@ {
        Key::Key2
    }     else if s == "3"@ {
        Key::Key3
    }     else if s == "4"@ {
        Key::Key4
    }     else if s == "5"@ {
        Key::Key5
    }     else if s == "6"@ {
        Key::Key6
    }     else if s == "7"@ {
        Key::Key7
    }     else if s == "8"@ {
        Key::Key8
    }     else if s == "9"@ {
        Key::Key9
    }     else if s == "Space"@ {
        Key::Space
    }     else if s == "Enter"@ {
        Key::Enter
    }     else if s == "Escape"@ {
        Key::Escape
    }     else if s == "Tab"@ {
        Key::Tab
    }     else if s == "Backspace"@ {
        Key::Backspace
    }     else if s == "Insert"@ {
        Key::Insert
    }     else if s == "Delete"@ {
        Key::Delete
    }     else if s == "Home"@ {
        Key::Home
    }     else if s == "End"@ {
        Key::End
    }     else if s == "PageUp"@ {
        Key::PageUp
    }     else if s == "PageDown"@ {
        Key::PageDown
    } else {
        Key::Numpad0
    }
}

/// The name of a key in the settings, for the keys a hotkey can be bound to
/// (the modifiers have none).
pub open spec fn key_name(k: Key) -> Option<Seq<char>> {
    match k {
        Key::Numpad0 => Some("Numpad0"@),
        Key::Numpad1 => Some("Numpad1"@),
        Key::Numpad2 => Some("Numpad2"@),
        Key::Numpad3 => Some("Numpad3"@),
        Key::Numpad4 => Some("Numpad4"@),
        Key::Numpad5 => Some("Numpad5"@),
        Key::Numpad6 => Some("Numpad6"@),
        Key::Numpad7 => Some("Numpad7"@),
        Key::Numpad8 => Some("Numpad8"@),
        Key::Numpad9 => Some("Numpad9"@),
        Key::NumpadAdd => Some("NumpadAdd"@),
        Key::NumpadSubtract => Some("NumpadSubtract"@),
        Key::NumpadMultiply => Some("NumpadMultiply"@),
        Key::NumpadDivide => Some("NumpadDivide"@),
        Key::NumpadDecimal => Some("NumpadDecimal"@),
        Key::F1 => Some("F1"@),
        Key::F2 => Some("F2"@),
        Key::F3 => Some("F3"@),
        Key::F4 => Some("F4"@),
        Key::F5 => Some("F5"@),
        Key::F6 => Some("F6"@),
        Key::F7 => Some("F7"@),
        Key::F8 => Some("F8"@),
        Key::F9 => Some("F9"@),
        Key::F10 => Some("F10"@),
        Key::F11 => Some("F11"@),
        Key::F12 => Some("F12"@),
        Key::A => Some("A"@),
        Key::B => Some("B"@),
        Key::C => Some("C"@),
        Key::D => Some("D"@),
        Key::E => Some("E"@),
        Key::F => Some("F"@),
        Key::G => Some("G"@),
        Key::H => Some("H"@),
        Key::I => Some("I"@),
        Key::J => Some("J"@),
        Key::K => Some("K"@),
        Key::L => Some("L"@),
        Key::M => Some("M"@),
        Key::N => Some("N"@),
        Key::O => Some("O"@),
        Key::P => Some("P"@),
        Key::Q => Some("Q"@),
        Key::R => Some("R"@),
        Key::S => Some("S"@),
        Key::T => Some("T"@),
        Key::U => Some("U"@),
        Key::V => Some("V"@),
        Key::W => Some("W"@),
        Key::X => Some("X"@),
        Key::Y => Some("Y"@),
        Key::Z => Some("Z"@),
        Key::Key0 => Some("0"@),
        Key::Key1 => Some("1"@),
        Key::Key2 => Some("2"@),
        Key::Key3 => Some("3"@),
        Key::Key4 => Some("4"@),
        Key::Key5 => Some("5"@),
        Key::Key6 => Some("6"@),
        Key::Key7 => Some("7"@),
        Key::Key8 => Some("8"@),
        Key::Key9 => Some("9"@),
        Key::Space => Some("Space"@),
        Key::Enter => Some("Enter"@),
        Key::Escape => Some("Escape"@),
        Key::Tab => Some("Tab"@),
        Key::Backspace => Some("Backspace"@),
        Key::Insert => Some("Insert"@),
        Key::Delete => Some("Delete"@),
        Key::Home => Some("Home"@),
        Key::End => Some("End"@),
        Key::PageUp => Some("PageUp"@),
        Key::PageDown => Some("PageDown"@),
        _ => None,
    }
}

/// The characters of the key names of the settings.
proof fn lemma_key_name_chars()
    ensures
        "Numpad0"@.len() == 7 && "Numpad0"@[0] == 'N' && "Numpad0"@[1] == 'u' && "Numpad0"@[2] == 'm' && "Numpad0"@[3] == 'p' && "Numpad0"@[4] == 'a' && "Numpad0"@[5] == 'd' && "Numpad0"@[6] == '0',
        "Numpad1"@.len() == 7 && "Numpad1"@[0] == 'N' && "Numpad1"@[1] == 'u' && "Numpad1"@[2] == 'm' && "Numpad1"@[3] == 'p' && "Numpad1"@[4] == 'a' && "Numpad1"@[5] == 'd' && "Numpad1"@[6] == '1',
        "Numpad2"@.len() == 7 && "Numpad2"@[0] == 'N' && "Numpad2"@[1] == 'u' && "Numpad2"@[2] == 'm' && "Numpad2"@[3] == 'p' && "Numpad2"@[4] == 'a' && "Numpad2"@[5] == 'd' && "Numpad2"@[6] == '2',
        "Numpad3"@.len() == 7 && "Numpad3"@[0] == 'N' && "Numpad3"@[1] == 'u' && "Numpad3"@[2] == 'm' && "Numpad3"@[3] == 'p' && "Numpad3"@[4] == 'a' && "Numpad3"@[5] == 'd' && "Numpad3"@[6] == '3',
        "Numpad4"@.len() == 7 && "Numpad4"@[0] == 'N' && "Numpad4"@[1] == 'u' && "Numpad4"@[2] == 'm' && "Numpad4"@[3] == 'p' && "Numpad4"@[4] == 'a' && "Numpad4"@[5] == 'd' && "Numpad4"@[6] == '4',
        "Numpad5"@.len() == 7 && "Numpad5"@[0] == 'N' && "Numpad5"@[1] == 'u' && "Numpad5"@[2] == 'm' && "Numpad5"@[3] == 'p' && "Numpad5"@[4] == 'a' && "Numpad5"@[5] == 'd' && "Numpad5"@[6] == '5',
        "Numpad6"@.len() == 7 && "Numpad6"@[0] == 'N' && "Numpad6"@[1] == 'u' && "Numpad6"@[2] == 'm' && "Numpad6"@[3] == 'p' && "Numpad6"@[4] == 'a' && "Numpad6"@[5] == 'd' && "Numpad6"@[6] == '6',
        "Numpad7"@.len() == 7 && "Numpad7"@[0] == 'N' && "Numpad7"@[1] == 'u' && "Numpad7"@[2] == 'm' && "Numpad7"@[3] == 'p' && "Numpad7"@[4] == 'a' && "Numpad7"@[5] == 'd' && "Numpad7"@[6] == '7',
        "Numpad8"@.len() == 7 && "Numpad8"@[0] == 'N' && "Numpad8"@[1] == 'u' && "Numpad8"@[2] == 'm' && "Numpad8"@[3] == 'p' && "Numpad8"@[4] == 'a' && "Numpad8"@[5] == 'd' && "Numpad8"@[6] == '8',
        "Numpad9"@.len() == 7 && "Numpad9"@[0] == 'N' && "Numpad9"@[1] == 'u' && "Numpad9"@[2] == 'm' && "Numpad9"@[3] == 'p' && "Numpad9"@[4] == 'a' && "Numpad9"@[5] == 'd' && "Numpad9"@[6] == '9',
        "NumpadAdd"@.len() == 9 && "NumpadAdd"@[0] == 'N' && "NumpadAdd"@[1] == 'u' && "NumpadAdd"@[2] == 'm' && "NumpadAdd"@[3] == 'p' && "NumpadAdd"@[4] == 'a' && "NumpadAdd"@[5] == 'd' && "NumpadAdd"@[6] == 'A' && "NumpadAdd"@[7] == 'd' && "NumpadAdd"@[8] == 'd',
        "NumpadSubtract"@.len() == 14 && "NumpadSubtract"@[0] == 'N' && "NumpadSubtract"@[1] == 'u' && "NumpadSubtract"@[2] == 'm' && "NumpadSubtract"@[3] == 'p' && "NumpadSubtract"@[4] == 'a' && "NumpadSubtract"@[5] == 'd' && "NumpadSubtract"@[6] == 'S' && "NumpadSubtract"@[7] == 'u' && "NumpadSubtract"@[8] == 'b' && "NumpadSubtract"@[9] == 't' && "NumpadSubtract"@[10] == 'r' && "NumpadSubtract"@[11] == 'a' && "NumpadSubtract"@[12] == 'c' && "NumpadSubtract"@[13] == 't',
        "NumpadMultiply"@.len() == 14 && "NumpadMultiply"@[0] == 'N' && "NumpadMultiply"@[1] == 'u' && "NumpadMultiply"@[2] == 'm' && "NumpadMultiply"@[3] == 'p' && "NumpadMultiply"@[4] == 'a' && "NumpadMultiply"@[5] == 'd' && "NumpadMultiply"@[6] == 'M' && "NumpadMultiply"@[7] == 'u' && "NumpadMultiply"@[8] == 'l' && "NumpadMultiply"@[9] == 't' && "NumpadMultiply"@[10] == 'i' && "NumpadMultiply"@[11] == 'p' && "NumpadMultiply"@[12] == 'l' && "NumpadMultiply"@[13] == 'y',
        "NumpadDivide"@.len() == 12 && "NumpadDivide"@[0] == 'N' && "NumpadDivide"@[1] == 'u' && "NumpadDivide"@[2] == 'm' && "NumpadDivide"@[3] == 'p' && "NumpadDivide"@[4] == 'a' && "NumpadDivide"@[5] == 'd' && "NumpadDivide"@[6] == 'D' && "NumpadDivide"@[7] == 'i' && "NumpadDivide"@[8] == 'v' && "NumpadDivide"@[9] == 'i' && "NumpadDivide"@[10] == 'd' && "NumpadDivide"@[11] == 'e',
        "NumpadDecimal"@.len() == 13 && "NumpadDecimal"@[0] == 'N' && "NumpadDecimal"@[1] == 'u' && "NumpadDecimal"@[2] == 'm' && "NumpadDecimal"@[3] == 'p' && "NumpadDecimal"@[4] == 'a' && "NumpadDecimal"@[5] == 'd' && "NumpadDecimal"@[6] == 'D' && "NumpadDecimal"@[7] == 'e' && "NumpadDecimal"@[8] == 'c' && "NumpadDecimal"@[9] == 'i' && "NumpadDecimal"@[10] == 'm' && "NumpadDecimal"@[11] == 'a' && "NumpadDecimal"@[12] == 'l',
        "F1"@.len() == 2 && "F1"@[0] == 'F' && "F1"@[1] == '1',
        "F2"@.len() == 2 && "F2"@[0] == 'F' && "F2"@[1] == '2',
        "F3"@.len() == 2 && "F3"@[0] == 'F' && "F3"@[1] == '3',
        "F4"@.len() == 2 && "F4"@[0] == 'F' && "F4"@[1] == '4',
        "F5"@.len() == 2 && "F5"@[0] == 'F' && "F5"@[1] == '5',
        "F6"@.len() == 2 && "F6"@[0] == 'F' && "F6"@[1] == '6',
        "F7"@.len() == 2 && "F7"@[0] == 'F' && "F7"@[1] == '7',
        "F8"@.len() == 2 && "F8"@[0] == 'F' && "F8"@[1] == '8',
        "F9"@.len() == 2 && "F9"@[0] == 'F' && "F9"@[1] == '9',
        "F10"@.len() == 3 && "F10"@[0] == 'F' && "F10"@[1] == '1' && "F10"@[2] == '0',
        "F11"@.len() == 3 && "F11"@[0] == 'F' && "F11"@[1] == '1' && "F11"@[2] == '1',
        "F12"@.len() == 3 && "F12"@[0] == 'F' && "F12"@[1] == '1' && "F12"@[2] == '2',
        "A"@.len() == 1 && "A"@[0] == 'A',
        "B"@.len() == 1 && "B"@[0] == 'B',
        "C"@.len() == 1 && "C"@[0] == 'C',
        "D"@.len() == 1 && "D"@[0] == 'D',
        "E"@.len() == 1 && "E"@[0] == 'E',
        "F"@.len() == 1 && "F"@[0] == 'F',
        "G"@.len() == 1 && "G"@[0] == 'G',
        "H"@.len() == 1 && "H"@[0] == 'H',
        "I"@.len() == 1 && "I"@[0] == 'I',
        "J"@.len() == 1 && "J"@[0] == 'J',
        "K"@.len() == 1 && "K"@[0] == 'K',
        "L"@.len() == 1 && "L"@[0] == 'L',
        "M"@.len() == 1 && "M"@[0] == 'M',
        "N"@.len() == 1 && "N"@[0] == 'N',
        "O"@.len() == 1 && "O"@[0] == 'O',
        "P"@.len() == 1 && "P"@[0] == 'P',
        "Q"@.len() == 1 && "Q"@[0] == 'Q',
        "R"@.len() == 1 && "R"@[0] == 'R',
        "S"@.len() == 1 && "S"@[0] == 'S',
        "T"@.len() == 1 && "T"@[0] == 'T',
        "U"@.len() == 1 && "U"@[0] == 'U',
        "V"@.len() == 1 && "V"@[0] == 'V',
        "W"@.len() == 1 && "W"@[0] == 'W',
        "X"@.len() == 1 && "X"@[0] == 'X',
        "Y"@.len() == 1 && "Y"@[0] == 'Y',
        "Z"@.len() == 1 && "Z"@[0] == 'Z',
        "0"@.len() == 1 && "0"@[0] == '0',
        "1"@.len() == 1 && "1"@[0] == '1',
        "2"@.len() == 1 && "2"@[0] == '2',
        "3"@.len() == 1 && "3"@[0] == '3',
        "4"@.len() == 1 && "4"@[0] == '4',
        "5"@.len() == 1 && "5"@[0] == '5',
        "6"@.len() == 1 && "6"@[0] == '6',
        "7"@.len() == 1 && "7"@[0] == '7',
        "8"@.len() == 1 && "8"@[0] == '8',
        "9"@.len() == 1 && "9"@[0] == '9',
        "Space"@.len() == 5 && "Space"@[0] == 'S' && "Space"@[1] == 'p' && "Space"@[2] == 'a' && "Space"@[3] == 'c' && "Space"@[4] == 'e',
        "Enter"@.len() == 5 && "Enter"@[0] == 'E' && "Enter"@[1] == 'n' && "Enter"@[2] == 't' && "Enter"@[3] == 'e' && "Enter"@[4] == 'r',
        "Escape"@.len() == 6 && "Escape"@[0] == 'E' && "Escape"@[1] == 's' && "Escape"@[2] == 'c' && "Escape"@[3] == 'a' && "Escape"@[4] == 'p' && "Escape"@[5] == 'e',
        "Tab"@.len() == 3 && "Tab"@[0] == 'T' && "Tab"@[1] == 'a' && "Tab"@[2] == 'b',
        "Backspace"@.len() == 9 && "Backspace"@[0] == 'B' && "Backspace"@[1] == 'a' && "Backspace"@[2] == 'c' && "Backspace"@[3] == 'k' && "Backspace"@[4] == 's' && "Backspace"@[5] == 'p' && "Backspace"@[6] == 'a' && "Backspace"@[7] == 'c' && "Backspace"@[8] == 'e',
        "Insert"@.len() == 6 && "Insert"@[0] == 'I' && "Insert"@[1] == 'n' && "Insert"@[2] == 's' && "Insert"@[3] == 'e' && "Insert"@[4] == 'r' && "Insert"@[5] == 't',
        "Delete"@.len() == 6 && "Delete"@[0] == 'D' && "Delete"@[1] == 'e' && "Delete"@[2] == 'l' && "Delete"@[3] == 'e' && "Delete"@[4] == 't' && "Delete"@[5] == 'e',
        "Home"@.len() == 4 && "Home"@[0] == 'H' && "Home"@[1] == 'o' && "Home"@[2] == 'm' && "Home"@[3] == 'e',
        "End"@.len() == 3 && "End"@[0] == 'E' && "End"@[1] == 'n' && "End"@[2] == 'd',
        "PageUp"@.len() == 6 && "PageUp"@[0] == 'P' && "PageUp"@[1] == 'a' && "PageUp"@[2] == 'g' && "PageUp"@[3] == 'e' && "PageUp"@[4] == 'U' && "PageUp"@[5] == 'p',
        "PageDown"@.len() == 8 && "PageDown"@[0] == 'P' && "PageDown"@[1] == 'a' && "PageDown"@[2] == 'g' && "PageDown"@[3] == 'e' && "PageDown"@[4] == 'D' && "PageDown"@[5] == 'o' && "PageDown"@[6] == 'w' && "PageDown"@[7] == 'n',
{
    reveal_strlit("Numpad0");
    reveal_strlit("Numpad1");
    reveal_strlit("Numpad2");
    reveal_strlit("Numpad3");
    reveal_strlit("Numpad4");
    reveal_strlit("Numpad5");
    reveal_strlit("Numpad6");
    reveal_strlit("Numpad7");
    reveal_strlit("Numpad8");
    reveal_strlit("Numpad9");
    reveal_strlit("NumpadAdd");
    reveal_strlit("NumpadSubtract");
    reveal_strlit("NumpadMultiply");
    reveal_strlit("NumpadDivide");
    reveal_strlit("NumpadDecimal");
    reveal_strlit("F1");
    reveal_strlit("F2");
    reveal_strlit("F3");
    reveal_strlit("F4");
    reveal_strlit("F5");
    reveal_strlit("F6");
    reveal_strlit("F7");
    reveal_strlit("F8");
    reveal_strlit("F9");
    reveal_strlit("F10");
    reveal_strlit("F11");
    reveal_strlit("F12");
    reveal_strlit("A");
    reveal_strlit("B");
    reveal_strlit("C");
    reveal_strlit("D");
    reveal_strlit("E");
    reveal_strlit("F");
    reveal_strlit("G");
    reveal_strlit("H");
    reveal_strlit("I");
    reveal_strlit("J");
    reveal_strlit("K");
    reveal_strlit("L");
    reveal_strlit("M");
    reveal_strlit("N");
    reveal_strlit("O");
    reveal_strlit("P");
    reveal_strlit("Q");
    reveal_strlit("R");
    reveal_strlit("S");
    reveal_strlit("T");
    reveal_strlit("U");
    reveal_strlit("V");
    reveal_strlit("W");
    reveal_strlit("X");
    reveal_strlit("Y");
    reveal_strlit("Z");
    reveal_strlit("0");
    reveal_strlit("1");
    reveal_strlit("2");
    reveal_strlit("3");
    reveal_strlit("4");
    reveal_strlit("5");
    reveal_strlit("6");
    reveal_strlit("7");
    reveal_strlit("8");
    reveal_strlit("9");
    reveal_strlit("Space");
    reveal_strlit("Enter");
    reveal_strlit("Escape");
    reveal_strlit("Tab");
    reveal_strlit("Backspace");
    reveal_strlit("Insert");
    reveal_strlit("Delete");
    reveal_strlit("Home");
    reveal_strlit("End");
    reveal_strlit("PageUp");
    reveal_strlit("PageDown");
}


proof fn lemma_numpad_key_names(k: Key)
    requires
        k == Key::Numpad0 || k == Key::Numpad1 || k == Key::Numpad2 || k == Key::Numpad3 || k == Key::Numpad4 || k == Key::Numpad5 || k == Key::Numpad6 || k == Key::Numpad7 || k == Key::Numpad8 || k == Key::Numpad9 || k == Key::NumpadAdd || k == Key::NumpadSubtract || k == Key::NumpadMultiply || k == Key::NumpadDivide || k == Key::NumpadDecimal,
    ensures
        key_name(k) matches Some(n) && key_from_name(n) == k,
{
    lemma_key_name_chars();
    match k {
        Key::Numpad0 => {
            assert(key_from_name("Numpad0"@) == Key::Numpad0);
        },
        Key::Numpad1 => {
            assert(key_from_name("Numpad1"@) == Key::Numpad1);
        },
        Key::Numpad2 => {
            assert(key_from_name("Numpad2"@) == Key::Numpad2);
        },
        Key::Numpad3 => {
            assert(key_from_name("Numpad3"@) == Key::Numpad3);
        },
        Key::Numpad4 => {
            assert(key_from_name("Numpad4"@) == Key::Numpad4);
        },
        Key::Numpad5 => {
            assert(key_from_name("Numpad5"@) == Key::Numpad5);
        },
        Key::Numpad6 => {
            assert(key_from_name("Numpad6"@) == Key::Numpad6);
        },
        Key::Numpad7 => {
            assert(key_from_name("Numpad7"@) == Key::Numpad7);
        },
        Key::Numpad8 => {
            assert(key_from_name("Numpad8"@) == Key::Numpad8);
        },
        Key::Numpad9 => {
            assert(key_from_name("Numpad9"@) == Key::Numpad9);
        },
        Key::NumpadAdd => {
            assert(key_from_name("NumpadAdd"@) == Key::NumpadAdd);
        },
        Key::NumpadSubtract => {
            assert(key_from_name("NumpadSubtract"@) == Key::NumpadSubtract);
        },
        Key::NumpadMultiply => {
            assert(key_from_name("NumpadMultiply"@) == Key::NumpadMultiply);
        },
        Key::NumpadDivide => {
            assert(key_from_name("NumpadDivide"@) == Key::NumpadDivide);
        },
        Key::NumpadDecimal => {
            assert(key_from_name("NumpadDecimal"@) == Key::NumpadDecimal);
        },
        _ => {},
    }
}

proof fn lemma_function_key_names(k: Key)
    requires
        k == Key::F1 || k == Key::F2 || k == Key::F3 || k == Key::F4 || k == Key::F5 || k == Key::F6 || k == Key::F7 || k == Key::F8 || k == Key::F9 || k == Key::F10 || k == Key::F11 || k == Key::F12,
    ensures
        key_name(k) matches Some(n) && key_from_name(n) == k,
{
    lemma_key_name_chars();
    match k {
        Key::F1 => {
            assert(key_from_name("F1"@) == Key::F1);
        },
        Key::F2 => {
            assert(key_from_name("F2"@) == Key::F2);
        },
        Key::F3 => {
            assert(key_from_name("F3"@) == Key::F3);
        },
        Key::F4 => {
            assert(key_from_name("F4"@) == Key::F4);
        },
        Key::F5 => {
            assert(key_from_name("F5"@) == Key::F5);
        },
        Key::F6 => {
            assert(key_from_name("F6"@) == Key::F6);
        },
        Key::F7 => {
            assert(key_from_name("F7"@) == Key::F7);
        },
        Key::F8 => {
            assert(key_from_name("F8"@) == Key::F8);
        },
        Key::F9 => {
            assert(key_from_name("F9"@) == Key::F9);
        },
        Key::F10 => {
            assert(key_from_name("F10"@) == Key::F10);
        },
        Key::F11 => {
            assert(key_from_name("F11"@) == Key::F11);
        },
        Key::F12 => {
            assert(key_from_name("F12"@) == Key::F12);
        },
        _ => {},
    }
}

proof fn lemma_letter_key_names(k: Key)
    requires
        k == Key::A || k == Key::B || k == Key::C || k == Key::D || k == Key::E || k == Key::F || k == Key::G || k == Key::H || k == Key::I || k == Key::J || k == Key::K || k == Key::L || k == Key::M || k == Key::N || k == Key::O || k == Key::P || k == Key::Q || k == Key::R || k == Key::S || k == Key::T || k == Key::U || k == Key::V || k == Key::W || k == Key::X || k == Key::Y || k == Key::Z,
    ensures
        key_name(k) matches Some(n) && key_from_name(n) == k,
{
    lemma_key_name_chars();
    match k {
        Key::A => {
            assert(key_from_name("A"@) == Key::A);
        },
        Key::B => {
            assert(key_from_name("B"@) == Key::B);
        },
        Key::C => {
            assert(key_from_name("C"@) == Key::C);
        },
        Key::D => {
            assert(key_from_name("D"@) == Key::D);
        },
        Key::E => {
            assert(key_from_name("E"@) == Key::E);
        },
        Key::F => {
            assert(key_from_name("F"@) == Key::F);
        },
        Key::G => {
            assert(key_from_name("G"@) == Key::G);
        },
        Key::H => {
            assert(key_from_name("H"@) == Key::H);
        },
        Key::I => {
            assert(key_from_name("I"@) == Key::I);
        },
        Key::J => {
            assert(key_from_name("J"@) == Key::J);
        },
        Key::K => {
            assert(key_from_name("K"@) == Key::K);
        },
        Key::L => {
            assert(key_from_name("L"@) == Key::L);
        },
        Key::M => {
            assert(key_from_name("M"@) == Key::M);
        },
        Key::N => {
            assert(key_from_name("N"@) == Key::N);
        },
        Key::O => {
            assert(key_from_name("O"@) == Key::O);
        },
        Key::P => {
            assert(key_from_name("P"@) == Key::P);
        },
        Key::Q => {
            assert(key_from_name("Q"@) == Key::Q);
        },
        Key::R => {
            assert(key_from_name("R"@) == Key::R);
        },
        Key::S => {
            assert(key_from_name("S"@) == Key::S);
        },
        Key::T => {
            assert(key_from_name("T"@) == Key::T);
        },
        Key::U => {
            assert(key_from_name("U"@) == Key::U);
        },
        Key::V => {
            assert(key_from_name("V"@) == Key::V);
        },
        Key::W => {
            assert(key_from_name("W"@) == Key::W);
        },
        Key::X => {
            assert(key_from_name("X"@) == Key::X);
        },
        Key::Y => {
            assert(key_from_name("Y"@) == Key::Y);
        },
        Key::Z => {
            assert(key_from_name("Z"@) == Key::Z);
        },
        _ => {},
    }
}

proof fn lemma_digit_key_names(k: Key)
    requires
        k == Key::Key0 || k == Key::Key1 || k == Key::Key2 || k == Key::Key3 || k == Key::Key4 || k == Key::Key5 || k == Key::Key6 || k == Key::Key7 || k == Key::Key8 || k == Key::Key9,
    ensures
        key_name(k) matches Some(n) && key_from_name(n) == k,
{
    lemma_key_name_chars();
    match k {
        Key::Key0 => {
            assert(key_from_name("0"@) == Key::Key0);
        },
        Key::Key1 => {
            assert(key_from_name("1"@) == Key::Key1);
        },
        Key::Key2 => {
            assert(key_from_name("2"@) == Key::Key2);
        },
        Key::Key3 => {
            assert(key_from_name("3"@) == Key::Key3);
        },
        Key::Key4 => {
            assert(key_from_name("4"@) == Key::Key4);
        },
        Key::Key5 => {
            assert(key_from_name("5"@) == Key::Key5);
        },
        Key::Key6 => {
            assert(key_from_name("6"@) == Key::Key6);
        },
        Key::Key7 => {
            assert(key_from_name("7"@) == Key::Key7);
        },
        Key::Key8 => {
            assert(key_from_name("8"@) == Key::Key8);
        },
        Key::Key9 => {
            assert(key_from_name("9"@) == Key::Key9);
        },
        _ => {},
    }
}

proof fn lemma_special_key_names(k: Key)
    requires
        k == Key::Space || k == Key::Enter || k == Key::Escape || k == Key::Tab || k == Key::Backspace || k == Key::Insert || k == Key::Delete || k == Key::Home || k == Key::End || k == Key::PageUp || k == Key::PageDown,
    ensures
        key_name(k) matches Some(n) && key_from_name(n) == k,
{
    lemma_key_name_chars();
    match k {
        Key::Space => {
            assert(key_from_name("Space"@) == Key::Space);
        },
        Key::Enter => {
            assert(key_from_name("Enter"@) == Key::Enter);
        },
        Key::Escape => {
            assert(key_from_name("Escape"@) == Key::Escape);
        },
        Key::Tab => {
            assert(key_from_name("Tab"@) == Key::Tab);
        },
        Key::Backspace => {
            assert(key_from_name("Backspace"@) == Key::Backspace);
        },
        Key::Insert => {
            assert(key_from_name("Insert"@) == Key::Insert);
        },
        Key::Delete => {
            assert(key_from_name("Delete"@) == Key::Delete);
        },
        Key::Home => {
            assert(key_from_name("Home"@) == Key::Home);
        },
        Key::End => {
            assert(key_from_name("End"@) == Key::End);
        },
        Key::PageUp => {
            assert(key_from_name("PageUp"@) == Key::PageUp);
        },
        Key::PageDown => {
            assert(key_from_name("PageDown"@) == Key::PageDown);
        },
        _ => {},
    }
}

/// Every key name of the settings denotes the key of that name: the name of
/// a key reads back as that key, so two different names never denote the
/// same key.
pub proof fn law_key_names_denote_their_keys(k: Key)
    ensures
        key_name(k) matches Some(n) ==> key_from_name(n) == k,
{
    if k == Key::Numpad0 || k == Key::Numpad1 || k == Key::Numpad2 || k == Key::Numpad3 || k == Key::Numpad4 || k == Key::Numpad5 || k == Key::Numpad6 || k == Key::Numpad7 || k == Key::Numpad8 || k == Key::Numpad9 || k == Key::NumpadAdd || k == Key::NumpadSubtract || k == Key::NumpadMultiply || k == Key::NumpadDivide || k == Key::NumpadDecimal {
        lemma_numpad_key_names(k);
    }
    if k == Key::F1 || k == Key::F2 || k == Key::F3 || k == Key::F4 || k == Key::F5 || k == Key::F6 || k == Key::F7 || k == Key::F8 || k == Key::F9 || k == Key::F10 || k == Key::F11 || k == Key::F12 {
        lemma_function_key_names(k);
    }
    if k == Key::A || k == Key::B || k == Key::C || k == Key::D || k == Key::E || k == Key::F || k == Key::G || k == Key::H || k == Key::I || k == Key::J || k == Key::K || k == Key::L || k == Key::M || k == Key::N || k == Key::O || k == Key::P || k == Key::Q || k == Key::R || k == Key::S || k == Key::T || k == Key::U || k == Key::V || k == Key::W || k == Key::X || k == Key::Y || k == Key::Z {
        lemma_letter_key_names(k);
    }
    if k == Key::Key0 || k == Key::Key1 || k == Key::Key2 || k == Key::Key3 || k == Key::Key4 || k == Key::Key5 || k == Key::Key6 || k == Key::Key7 || k == Key::Key8 || k == Key::Key9 {
        lemma_digit_key_names(k);
    }
    if k == Key::Space || k == Key::Enter || k == Key::Escape || k == Key::Tab || k == Key::Backspace || k == Key::Insert || k == Key::Delete || k == Key::Home || k == Key::End || k == Key::PageUp || k == Key::PageDown {
        lemma_special_key_names(k);
    }
}

/// Converts a key name from the settings to a key. An unknown name gives `Numpad0`.
pub fn string_to_keycode(s: &str) -> (k: Key)
    ensures
        k == key_from_name(s@),
{
    let v = chars_of(s);
    if chars_eq(&v, &chars_of("Numpad0")) {
        Key::Numpad0
    }     else if chars_eq(&v, &chars_of("Numpad1")) {
        Key::Numpad1
    }     else if chars_eq(&v, &chars_of("Numpad2")) {
        Key::Numpad2
    }     else if chars_eq(&v, &chars_of("Numpad3")) {
        Key::Numpad3
    }     else if chars_eq(&v, &chars_of("Numpad4")) {
        Key::Numpad4
    }     else if chars_eq(&v, &chars_of("Numpad5")) {
        Key::Numpad5
    }     else if chars_eq(&v, &chars_of("Numpad6")) {
        Key::Numpad6
    }     else if chars_eq(&v, &chars_of("Numpad7")) {
        Key::Numpad7
    }     else if chars_eq(&v, &chars_of("Numpad8")) {
        Key::Numpad8
    }     else if chars_eq(&v, &chars_of("Numpad9")) {
        Key::Numpad9
    }     else if chars_eq(&v, &chars_of("NumpadAdd")) {
        Key::NumpadAdd
    }     else if chars_eq(&v, &chars_of("NumpadSubtract")) {
        Key::NumpadSubtract
    }     else if chars_eq(&v, &chars_of("NumpadMultiply")) {
        Key::NumpadMultiply
    }     else if chars_eq(&v, &chars_of("NumpadDivide")) {
        Key::NumpadDivide
    }     else if chars_eq(&v, &chars_of("NumpadDecimal")) {
        Key::NumpadDecimal
    }     else if chars_eq(&v, &chars_of("F1")) {
        Key::F1
    }     else if chars_eq(&v, &chars_of("F2")) {
        Key::F2
    }     else if chars_eq(&v, &chars_of("F3")) {
        Key::F3
    }     else if chars_eq(&v, &chars_of("F4")) {
        Key::F4
    }     else if chars_eq(&v, &chars_of("F5")) {
        Key::F5
    }     else if chars_eq(&v, &chars_of("F6")) {
        Key::F6
    }     else if chars_eq(&v, &chars_of("F7")) {
        Key::F7
    }     else if chars_eq(&v, &chars_of("F8")) {
        Key::F8
    }     else if chars_eq(&v, &chars_of("F9")) {
        Key::F9
    }     else if chars_eq(&v, &chars_of("F10")) {
        Key::F10
    }     else if chars_eq(&v, &chars_of("F11")) {
        Key::F11
    }     else if chars_eq(&v, &chars_of("F12")) {
        Key::F12
    }     else if chars_eq(&v, &chars_of("A")) {
        Key::A
    }     else if chars_eq(&v, &chars_of("B")) {
        Key::B
    }     else if chars_eq(&v, &chars_of("C")) {
        Key::C
    }     else if chars_eq(&v, &chars_of("D")) {
        Key::D
    }     else if chars_eq(&v, &chars_of("E")) {
        Key::E
    }     else if chars_eq(&v, &chars_of("F")) {
        Key::F
    }     else if chars_eq(&v, &chars_of("G")) {
        Key::G
    }     else if chars_eq(&v, &chars_of("H")) {
        Key::H
    }     else if chars_eq(&v, &chars_of("I")) {
        Key::I
    }     else if chars_eq(&v, &chars_of("J")) {
        Key::J
    }     else if chars_eq(&v, &chars_of("K")) {
        Key::K
    }     else if chars_eq(&v, &chars_of("L")) {
        Key::L
    }     else if chars_eq(&v, &chars_of("M")) {
        Key::M
    }     else if chars_eq(&v, &chars_of("N")) {
        Key::N
    }     else if chars_eq(&v, &chars_of("O")) {
        Key::O
    }     else if chars_eq(&v, &chars_of("P")) {
        Key::P
    }     else if chars_eq(&v, &chars_of("Q")) {
        Key::Q
    }     else if chars_eq(&v, &chars_of("R")) {
        Key::R
    }     else if chars_eq(&v, &chars_of("S")) {
        Key::S
    }     else if chars_eq(&v, &chars_of("T")) {
        Key::T
    }     else if chars_eq(&v, &chars_of("U")) {
        Key::U
    }     else if chars_eq(&v, &chars_of("V")) {
        Key::V
    }     else if chars_eq(&v, &chars_of("W")) {
        Key::W
    }     else if chars_eq(&v, &chars_of("X")) {
        Key::X
    }     else if chars_eq(&v, &chars_of("Y")) {
        Key::Y
    }     else if chars_eq(&v, &chars_of("Z")) {
        Key::Z
    }     else if chars_eq(&v, &chars_of("0")) {
        Key::Key0
    }     else if chars_eq(&v, &chars_of("1")) {
        Key::Key1
    }     else if chars_eq(&v, &chars_of("2")) {
        Key::Key2
    }     else if chars_eq(&v, &chars_of("3")) {
        Key::Key3
    }     else if chars_eq(&v, &chars_of("4")) {
        Key::Key4
    }     else if chars_eq(&v, &chars_of("5")) {
        Key::Key5
    }     else if chars_eq(&v, &chars_of("6")) {
        Key::Key6
    }     else if chars_eq(&v, &chars_of("7")) {
        Key::Key7
    }     else if chars_eq(&v, &chars_of("8")) {
        Key::Key8
    }     else if chars_eq(&v, &chars_of("9")) {
        Key::Key9
    }     else if chars_eq(&v, &chars_of("Space")) {
        Key::Space
    }     else if chars_eq(&v, &chars_of("Enter")) {
        Key::Enter
    }     else if chars_eq(&v, &chars_of("Escape")) {
        Key::Escape
    }     else if chars_eq(&v, &chars_of("Tab")) {
        Key::Tab
    }     else if chars_eq(&v, &chars_of("Backspace")) {
        Key::Backspace
    }     else if chars_eq(&v, &chars_of("Insert")) {
        Key::Insert
    }     else if chars_eq(&v, &chars_of("Delete")) {
        Key::Delete
    }     else if chars_eq(&v, &chars_of("Home")) {
        Key::Home
    }     else if chars_eq(&v, &chars_of("End")) {
        Key::End
    }     else if chars_eq(&v, &chars_of("PageUp")) {
        Key::PageUp
    }     else if chars_eq(&v, &chars_of("PageDown")) {
        Key::PageDown
    } else {
        Key::Numpad0
    }
}

/// The modifier a name from the settings denotes, compared without regard to
/// case: "ctrl"/"control"/"lcontrol", "shift"/"lshift", "alt"/"lalt"; any
/// other name (the empty one too) denotes none.
pub open spec fn modifier_from_name(s: Seq<char>) -> Option<Key> {
    let l = lowercase_of(s);
    if l == "ctrl"@ || l == "control"@ || l == "lcontrol"@ {
        Some(Key::LControl)
    } else if l == "shift"@ || l == "lshift"@ {
        Some(Key::LShift)
    } else if l == "alt"@ || l == "lalt"@ {
        Some(Key::LAlt)
    } else {
        None
    }
}

/// Converts a modifier name from the settings to a modifier key, if it names one.
pub fn modifier_to_keycode(s: &str) -> (k: Option<Key>)
    ensures
        k == modifier_from_name(s@),
{
    let lower = to_lowercase(s);
    let l = chars_of(lower.as_str());
    if chars_eq(&l, &chars_of("ctrl")) || chars_eq(&l, &chars_of("control")) || chars_eq(
        &l,
        &chars_of("lcontrol"),
    ) {
        Some(Key::LControl)
    } else if chars_eq(&l, &chars_of("shift")) || chars_eq(&l, &chars_of("lshift")) {
        Some(Key::LShift)
    } else if chars_eq(&l, &chars_of("alt")) || chars_eq(&l, &chars_of("lalt")) {
        Some(Key::LAlt)
    } else {
        None
    }
}

/// A hotkey with its names resolved to keys.
#[derive(Debug, Clone, Copy, PartialEq, Eq, Structural)]
pub struct ParsedBinding {
    /// Modifier that must be held (`None`: no modifier may be held).
    pub modifier: Option<Key>,
    /// Main key.
    pub key: Key,
    /// Action the hotkey asks for.
    pub action: HotkeyAction,
}

/// A binding with its names resolved (see `modifier_from_name` and `key_from_name`).
pub open spec fn parsed_spec(binding: HotkeyBinding, action: HotkeyAction) -> ParsedBinding {
    ParsedBinding {
        modifier: modifier_from_name(binding.modifier@),
        key: key_from_name(binding.key@),
        action,
    }
}

/// Resolves the names of a binding.
pub fn parse_binding(binding: &HotkeyBinding, action: HotkeyAction) -> (p: ParsedBinding)
    ensures
        p == parsed_spec(*binding, action),
{
    ParsedBinding {
        modifier: modifier_to_keycode(binding.modifier.as_str()),
        key: string_to_keycode(binding.key.as_str()),
        action,
    }
}

/// Whether the modifier condition of a binding holds for the keys that are
/// down: the named modifier on either side of the keyboard, or, for a binding
/// without modifier, no Ctrl, Shift or Alt at all.
pub open spec fn modifier_ok(modifier: Option<Key>, keys: Seq<Key>) -> bool {
    match modifier {
        Some(Key::LControl) => keys.contains(Key::LControl) || keys.contains(Key::RControl),
        Some(Key::LShift) => keys.contains(Key::LShift) || keys.contains(Key::RShift),
        Some(Key::LAlt) => keys.contains(Key::LAlt) || keys.contains(Key::RAlt),
        Some(m) => keys.contains(m),
        None => {
            &&& !keys.contains(Key::LControl)
            &&& !keys.contains(Key::RControl)
            &&& !keys.contains(Key::LShift)
            &&& !keys.contains(Key::RShift)
            &&& !keys.contains(Key::LAlt)
            &&& !keys.contains(Key::RAlt)
        },
    }
}

/// Which action the keys that are down trigger, and the new set of keys
/// already handled. Bindings are tried in order: a binding whose key is up
/// takes its key out of the handled set; the first binding whose key is down
/// with its modifier condition met decides — it fires if its key was not
/// handled yet (and marks it handled), and nothing fires otherwise.
pub open spec fn decide_spec(pressed: Set<Key>, bindings: Seq<ParsedBinding>, keys: Seq<Key>) -> (
    Set<Key>,
    Option<HotkeyAction>,
)
    decreases bindings.len(),
{
    if bindings.len() == 0 {
        (pressed, None)
    } else {
        let b = bindings[0];
        if keys.contains(b.key) {
            if modifier_ok(b.modifier, keys) {
                if !pressed.contains(b.key) {
                    (pressed.insert(b.key), Some(b.action))
                } else {
                    (pressed, None)
                }
            } else {
                decide_spec(pressed, bindings.drop_first(), keys)
            }
        } else {
            decide_spec(pressed.remove(b.key), bindings.drop_first(), keys)
        }
    }
}

/// Whether a key is in a list of keys.
fn contains_key(keys: &Vec<Key>, k: Key) -> (r: bool)
    ensures
        r == keys@.contains(k),
{
    let mut i: usize = 0;
    while i < keys.len()
        invariant
            i <= keys@.len(),
            forall|j: int| 0 <= j < i ==> keys@[j] != k,
        decreases keys@.len() - i,
    {
        if keys[i] == k {
            assert(keys@[i as int] == k);
            return true;
        }
        i = i + 1;
    }
    false
}

/// The position of a key in a list of keys, if it is there.
fn position_of(keys: &Vec<Key>, k: Key) -> (r: Option<usize>)
    ensures
        match r {
            Some(j) => j < keys@.len() && keys@[j as int] == k,
            None => !keys@.contains(k),
        },
{
    let mut i: usize = 0;
    while i < keys.len()
        invariant
            i <= keys@.len(),
            forall|j: int| 0 <= j < i ==> keys@[j] != k,
        decreases keys@.len() - i,
    {
        if keys[i] == k {
            return Some(i);
        }
        i = i + 1;
    }
    None
}

/// Whether the modifier condition of a binding holds (see `modifier_ok`).
fn check_modifier(modifier: Option<Key>, keys: &Vec<Key>) -> (r: bool)
    ensures
        r == modifier_ok(modifier, keys@),
{
    match modifier {
        Some(m) => {
            contains_key(keys, m) || match m {
                Key::LControl => contains_key(keys, Key::RControl),
                Key::LShift => contains_key(keys, Key::RShift),
                Key::LAlt => contains_key(keys, Key::RAlt),
                _ => false,
            }
        },
        None => {
            !contains_key(keys, Key::LControl) && !contains_key(keys, Key::RControl)
                && !contains_key(keys, Key::LShift) && !contains_key(keys, Key::RShift)
                && !contains_key(keys, Key::LAlt) && !contains_key(keys, Key::RAlt)
        },
    }
}

/// Watches the keys that are down and tells which action a hotkey triggers,
/// once per press, and at most once every `MIN_ACTION_INTERVAL_MS`.
pub struct HotkeyManager {
    /// Keys already handled (kept down since they fired), each once.
    pressed_keys: Vec<Key>,
    /// When the last action fired.
    last_action_time: Instant,
    /// The configured hotkeys, in the order they are tried.
    bindings: Vec<ParsedBinding>,
}

impl HotkeyManager {
    /// The keys already handled.
    pub closed spec fn pressed(self) -> Set<Key> {
        self.pressed_keys@.to_set()
    }

    /// The configured hotkeys, in the order they are tried.
    pub closed spec fn binding_list(self) -> Seq<ParsedBinding> {
        self.bindings@
    }

    /// When the last action fired (when the manager was made, before any).
    pub closed spec fn last_action(self) -> Instant {
        self.last_action_time
    }

    #[verifier::type_invariant]
    spec fn pressed_once(self) -> bool {
        self.pressed_keys@.no_duplicates()
    }

    /// Resolves the configured hotkeys, each with its modifier. Bindings are
    /// tried in the order: select region, translate region, translate full
    /// screen, select subtitle region, toggle the preview of the subtitle
    /// areas, toggle subtitle mode, hide translation, open settings.
    pub fn new(hotkeys: &HotkeyConfig) -> (m: Self)
        ensures
            m.pressed() == Set::<Key>::empty(),
            m.binding_list() == seq![
                parsed_spec(hotkeys.select_region, HotkeyAction::SelectRegion),
                parsed_spec(hotkeys.translate_region, HotkeyAction::TranslateRegion),
                parsed_spec(hotkeys.translate_fullscreen, HotkeyAction::TranslateFullScreen),
                parsed_spec(hotkeys.select_subtitle_region, HotkeyAction::SelectSubtitleRegion),
                parsed_spec(hotkeys.toggle_subtitle_areas_preview, HotkeyAction::ToggleSubtitleAreasPreview),
                parsed_spec(hotkeys.toggle_subtitle_mode, HotkeyAction::ToggleSubtitleMode),
                parsed_spec(hotkeys.hide_translation, HotkeyAction::HideTranslation),
                parsed_spec(hotkeys.open_settings, HotkeyAction::OpenSettings),
            ],
    {
        let mut bindings: Vec<ParsedBinding> = Vec::new();
        bindings.push(parse_binding(&hotkeys.select_region, HotkeyAction::SelectRegion));
        bindings.push(parse_binding(&hotkeys.translate_region, HotkeyAction::TranslateRegion));
        bindings.push(parse_binding(&hotkeys.translate_fullscreen, HotkeyAction::TranslateFullScreen));
        bindings.push(parse_binding(&hotkeys.select_subtitle_region, HotkeyAction::SelectSubtitleRegion));
        bindings.push(parse_binding(&hotkeys.toggle_subtitle_areas_preview, HotkeyAction::ToggleSubtitleAreasPreview));
        bindings.push(parse_binding(&hotkeys.toggle_subtitle_mode, HotkeyAction::ToggleSubtitleMode));
        bindings.push(parse_binding(&hotkeys.hide_translation, HotkeyAction::HideTranslation));
        bindings.push(parse_binding(&hotkeys.open_settings, HotkeyAction::OpenSettings));
        assert(bindings@ =~= seq![
            parsed_spec(hotkeys.select_region, HotkeyAction::SelectRegion),
            parsed_spec(hotkeys.translate_region, HotkeyAction::TranslateRegion),
            parsed_spec(hotkeys.translate_fullscreen, HotkeyAction::TranslateFullScreen),
            parsed_spec(hotkeys.select_subtitle_region, HotkeyAction::SelectSubtitleRegion),
            parsed_spec(hotkeys.toggle_subtitle_areas_preview, HotkeyAction::ToggleSubtitleAreasPreview),
            parsed_spec(hotkeys.toggle_subtitle_mode, HotkeyAction::ToggleSubtitleMode),
            parsed_spec(hotkeys.hide_translation, HotkeyAction::HideTranslation),
            parsed_spec(hotkeys.open_settings, HotkeyAction::OpenSettings),
        ]);
        Self::with_bindings(bindings)
    }

    /// A manager for the given hotkeys, tried in the given order.
    pub fn with_bindings(bindings: Vec<ParsedBinding>) -> (m: Self)
        ensures
            m.pressed() == Set::<Key>::empty(),
            m.binding_list() == bindings@,
    {
        let m = HotkeyManager { pressed_keys: Vec::new(), last_action_time: instant_now(), bindings };
        assert(m.pressed_keys@.to_set() =~= Set::<Key>::empty());
        m
    }

    /// Decides which action the keys that are down trigger (see `decide_spec`),
    /// updating the keys already handled.
    pub fn decide(&mut self, keys: &Vec<Key>) -> (r: Option<HotkeyAction>)
        ensures
            (final(self).pressed(), r) == decide_spec(old(self).pressed(), old(self).binding_list(), keys@),
            final(self).binding_list() == old(self).binding_list(),
            r is None ==> final(self).last_action() == old(self).last_action(),
    {
        proof {
            use_type_invariant(&*self);
        }
        let mut pressed: Vec<Key> = Vec::new();
        std::mem::swap(&mut pressed, &mut self.pressed_keys);
        let ghost all = self.bindings@;
        let ghost target = decide_spec(pressed@.to_set(), all, keys@);
        let mut i: usize = 0;
        assert(all.skip(0) =~= all);
        while i < self.bindings.len()
            invariant
                all == self.bindings@,
                all == old(self).bindings@,
                self.last_action_time == old(self).last_action_time,
                target == decide_spec(old(self).pressed(), old(self).binding_list(), keys@),
                i <= all.len(),
                pressed@.no_duplicates(),
                decide_spec(pressed@.to_set(), all.skip(i as int), keys@) == target,
            decreases all.len() - i,
        {
            let b = self.bindings[i];
            proof {
                assert(all.skip(i as int)[0] == b);
                assert(all.skip(i as int).drop_first() =~= all.skip(i + 1));
            }
            if contains_key(keys, b.key) {
                if check_modifier(b.modifier, keys) {
                    if !contains_key(&pressed, b.key) {
                        let ghost before = pressed@;
                        pressed.push(b.key);
                        proof {
                            assert forall|k: Key| #[trigger] pressed@.contains(k) == (before.contains(k) || k == b.key) by {
                                if pressed@.contains(k) {
                                    let x = choose|x: int| 0 <= x < pressed@.len() && pressed@[x] == k;
                                    if x < before.len() {
                                        assert(before[x] == k);
                                    }
                                }
                                if before.contains(k) {
                                    let x = choose|x: int| 0 <= x < before.len() && before[x] == k;
                                    assert(pressed@[x] == k);
                                }
                                if k == b.key {
                                    assert(pressed@[before.len() as int] == k);
                                }
                            }
                            assert(pressed@.to_set() =~= before.to_set().insert(b.key));
                            assert forall|x: int, y: int|
                                0 <= x < pressed@.len() && 0 <= y < pressed@.len() && x != y
                                implies pressed@[x] != pressed@[y] by {
                                if x < before.len() && y < before.len() {
                                    assert(pressed@[x] == before[x] && pressed@[y] == before[y]);
                                } else if x < before.len() {
                                    assert(before.contains(before[x]));
                                } else if y < before.len() {
                                    assert(before.contains(before[y]));
                                }
                            }
                        }
                        self.pressed_keys = pressed;
                        self.last_action_time = instant_now();
                        return Some(b.action);
                    }
                    self.pressed_keys = pressed;
                    return None;
                }
            } else {
                let ghost before = pressed@;
                if let Some(j) = position_of(&pressed, b.key) {
                    pressed.remove(j);
                    proof {
                        assert forall|k: Key| #[trigger] pressed@.contains(k) == (before.contains(k) && k != b.key) by {
                            if pressed@.contains(k) {
                                let x = choose|x: int| 0 <= x < pressed@.len() && pressed@[x] == k;
                                if x < j {
                                    assert(before[x] == k);
                                } else {
                                    assert(before[x + 1] == k);
                                    assert(x + 1 != j);
                                }
                            }
                            if before.contains(k) && k != b.key {
                                let x = choose|x: int| 0 <= x < before.len() && before[x] == k;
                                assert(x != j);
                                if x < j {
                                    assert(pressed@[x] == k);
                                } else {
                                    assert(pressed@[x - 1] == k);
                                }
                            }
                        }
                        assert(pressed@.to_set() =~= before.to_set().remove(b.key));
                        assert forall|x: int, y: int|
                            0 <= x < pressed@.len() && 0 <= y < pressed@.len() && x != y
                            implies pressed@[x] != pressed@[y] by {
                            let x2 = if x < j { x } else { x + 1 };
                            let y2 = if y < j { y } else { y + 1 };
                            assert(pressed@[x] == before[x2] && pressed@[y] == before[y2]);
                        }
                    }
                } else {
                    proof {
                        assert(!before.contains(b.key));
                        assert(pressed@.to_set() =~= before.to_set().remove(b.key));
                    }
                }
            }
            i = i + 1;
        }
        self.pressed_keys = pressed;
        None
    }

    /// Like `decide`, but when fewer than `MIN_ACTION_INTERVAL_MS` have passed
    /// since the last action (`elapsed_ms`), nothing is decided and nothing changes.
    pub fn check_hotkey_after(&mut self, keys: &Vec<Key>, elapsed_ms: u128) -> (r: Option<
        HotkeyAction,
    >)
        ensures
            (final(self).pressed(), r) == check_spec(
                old(self).pressed(),
                old(self).binding_list(),
                keys@,
                elapsed_ms,
            ),
            elapsed_ms < MIN_ACTION_INTERVAL_MS ==> r is None && *final(self) == *old(self),
            elapsed_ms >= MIN_ACTION_INTERVAL_MS ==> (final(self).pressed(), r) == decide_spec(
                old(self).pressed(),
                old(self).binding_list(),
                keys@,
            ),
            final(self).binding_list() == old(self).binding_list(),
            r is None ==> final(self).last_action() == old(self).last_action(),
    {
        if elapsed_ms < MIN_ACTION_INTERVAL_MS {
            return None;
        }
        self.decide(keys)
    }

    /// Tells which action the keys that are down trigger, if any. Nothing
    /// fires, and nothing changes, when less than `MIN_ACTION_INTERVAL_MS`
    /// passed since the last action; otherwise the decision is that of
    /// `decide`. Which of the two holds depends on the clock.
    pub fn check_hotkey(&mut self, keys: &Vec<Key>) -> (r: Option<HotkeyAction>)
        ensures
            (r is None && *final(self) == *old(self)) || (final(self).pressed(), r)
                == decide_spec(old(self).pressed(), old(self).binding_list(), keys@),
            final(self).binding_list() == old(self).binding_list(),
            r is None ==> final(self).last_action() == old(self).last_action(),
    {
        let elapsed = elapsed_millis(&self.last_action_time);
        self.check_hotkey_after(keys, elapsed)
    }
}

/// A hotkey fires once per press: deciding again with the same keys down
/// never fires.
pub proof fn law_fires_once_per_press(pressed: Set<Key>, bindings: Seq<ParsedBinding>, keys: Seq<Key>)
    ensures
        decide_spec(decide_spec(pressed, bindings, keys).0, bindings, keys).1 is None,
    decreases bindings.len(),
{
    if bindings.len() > 0 {
        let b = bindings[0];
        let first = decide_spec(pressed, bindings, keys);
        if keys.contains(b.key) {
            if modifier_ok(b.modifier, keys) {
                if !pressed.contains(b.key) {
                    assert(first.0.contains(b.key));
                }
            } else {
                law_fires_once_per_press(pressed, bindings.drop_first(), keys);
            }
        } else {
            law_fires_once_per_press(pressed.remove(b.key), bindings.drop_first(), keys);
            lemma_decide_ignores_released(first.0, bindings, keys);
            lemma_decide_held_only(first.0, first.0.remove(b.key), bindings.drop_first(), keys);
        }
    }
}

/// One decision keeps every handled key that is still down handled, and what
/// fires comes from a binding whose key is down and was not handled.
proof fn lemma_decide_step(pressed: Set<Key>, bindings: Seq<ParsedBinding>, keys: Seq<Key>)
    ensures
        forall|k: Key| pressed.contains(k) && keys.contains(k) ==> #[trigger] decide_spec(pressed, bindings, keys).0.contains(k),
        decide_spec(pressed, bindings, keys).1 matches Some(a) ==> exists|j: int|
            0 <= j < bindings.len() && #[trigger] bindings[j].action == a && keys.contains(bindings[j].key)
                && !pressed.contains(bindings[j].key),
    decreases bindings.len(),
{
    if bindings.len() > 0 {
        let b = bindings[0];
        let rest = bindings.drop_first();
        if keys.contains(b.key) {
            if modifier_ok(b.modifier, keys) {
                if !pressed.contains(b.key) {
                    assert(bindings[0].action == b.action);
                }
            } else {
                lemma_decide_step(pressed, rest, keys);
                let r = decide_spec(pressed, rest, keys);
                if r.1 is Some {
                    let j = choose|j: int| 0 <= j < rest.len() && #[trigger] rest[j].action == r.1->0
                        && keys.contains(rest[j].key) && !pressed.contains(rest[j].key);
                    assert(bindings[j + 1] == rest[j]);
                }
            }
        } else {
            let q = pressed.remove(b.key);
            lemma_decide_step(q, rest, keys);
            assert forall|k: Key| pressed.contains(k) && keys.contains(k) implies #[trigger] decide_spec(pressed, bindings, keys).0.contains(k) by {
                assert(q.contains(k));
            }
            let r = decide_spec(q, rest, keys);
            if r.1 is Some {
                let j = choose|j: int| 0 <= j < rest.len() && #[trigger] rest[j].action == r.1->0
                    && keys.contains(rest[j].key) && !q.contains(rest[j].key);
                assert(bindings[j + 1] == rest[j]);
                assert(rest[j].key != b.key);
            }
        }
    }
}

/// The handled keys after deciding on each set of keys that are down in turn.
pub open spec fn pressed_after(pressed: Set<Key>, bindings: Seq<ParsedBinding>, polls: Seq<Seq<Key>>) -> Set<Key>
    decreases polls.len(),
{
    if polls.len() == 0 {
        pressed
    } else {
        decide_spec(pressed_after(pressed, bindings, polls.drop_last()), bindings, polls.last()).0
    }
}

/// A hotkey fires once per press, whatever else is pressed meanwhile: once
/// its key `k` is handled (as it is after it fired), every later decision
/// while `k` stays down keeps it handled, and whatever fires then comes from
/// a binding on another key that is down and not handled.
pub proof fn law_held_key_fires_once(
    pressed: Set<Key>,
    bindings: Seq<ParsedBinding>,
    polls: Seq<Seq<Key>>,
    k: Key,
)
    requires
        pressed.contains(k),
        forall|i: int| 0 <= i < polls.len() ==> (#[trigger] polls[i]).contains(k),
    ensures
        forall|i: int| 0 <= i <= polls.len() ==> #[trigger] pressed_after(pressed, bindings, polls.take(i)).contains(k),
        forall|i: int|
            0 <= i < polls.len() ==> ((#[trigger] decide_spec(pressed_after(pressed, bindings, polls.take(i)), bindings, polls[i])).1
                matches Some(a) ==> exists|j: int|
                0 <= j < bindings.len() && #[trigger] bindings[j].action == a && bindings[j].key != k
                    && polls[i].contains(bindings[j].key)),
    decreases polls.len(),
{
    if polls.len() > 0 {
        let init = polls.drop_last();
        assert forall|i: int| 0 <= i < init.len() implies (#[trigger] init[i]).contains(k) by {
            assert(init[i] == polls[i]);
        }
        law_held_key_fires_once(pressed, bindings, init, k);
        let n = polls.len() - 1;
        assert forall|i: int| 0 <= i <= polls.len() implies #[trigger] pressed_after(pressed, bindings, polls.take(i)).contains(k) by {
            if i < polls.len() {
                assert(polls.take(i) =~= init.take(i));
            } else {
                assert(polls.take(i).drop_last() =~= init.take(n));
                assert(polls.take(i).last() == polls[n]);
                let p = pressed_after(pressed, bindings, init.take(n));
                lemma_decide_step(p, bindings, polls[n]);
            }
        }
        assert forall|i: int|
            0 <= i < polls.len() implies ((#[trigger] decide_spec(pressed_after(pressed, bindings, polls.take(i)), bindings, polls[i])).1
                matches Some(a) ==> exists|j: int|
                0 <= j < bindings.len() && #[trigger] bindings[j].action == a && bindings[j].key != k
                    && polls[i].contains(bindings[j].key)) by {
            let p = pressed_after(pressed, bindings, polls.take(i));
            assert(p.contains(k));
            lemma_decide_step(p, bindings, polls[i]);
            let d = decide_spec(p, bindings, polls[i]);
            if d.1 is Some {
                let a = d.1->0;
                let j = choose|j: int| 0 <= j < bindings.len() && #[trigger] bindings[j].action == a
                    && polls[i].contains(bindings[j].key) && !p.contains(bindings[j].key);
                assert(bindings[j].key != k);
            }
        }
    }
}

/// One check of the hotkeys, `elapsed_ms` after the last action: too soon,
/// nothing fires and nothing changes; otherwise the decision of `decide_spec`.
pub open spec fn check_spec(pressed: Set<Key>, bindings: Seq<ParsedBinding>, keys: Seq<Key>, elapsed_ms: u128) -> (
    Set<Key>,
    Option<HotkeyAction>,
) {
    if elapsed_ms < MIN_ACTION_INTERVAL_MS {
        (pressed, None)
    } else {
        decide_spec(pressed, bindings, keys)
    }
}

/// The handled keys after checking each poll (keys down, time since the
/// last action) in turn.
pub open spec fn pressed_after_checks(
    pressed: Set<Key>,
    bindings: Seq<ParsedBinding>,
    polls: Seq<(Seq<Key>, u128)>,
) -> Set<Key>
    decreases polls.len(),
{
    if polls.len() == 0 {
        pressed
    } else {
        check_spec(
            pressed_after_checks(pressed, bindings, polls.drop_last()),
            bindings,
            polls.last().0,
            polls.last().1,
        ).0
    }
}

/// Once per press across checks, whatever time passes between them: once the
/// key `k` of a binding is handled (as it is after that binding fired), it
/// stays handled while it is down, and whatever fires meanwhile comes from a
/// binding on another key that is down.
pub proof fn law_check_fires_once_per_press(
    pressed: Set<Key>,
    bindings: Seq<ParsedBinding>,
    polls: Seq<(Seq<Key>, u128)>,
    k: Key,
)
    requires
        pressed.contains(k),
        forall|i: int| 0 <= i < polls.len() ==> (#[trigger] polls[i]).0.contains(k),
    ensures
        forall|i: int| 0 <= i <= polls.len() ==> #[trigger] pressed_after_checks(pressed, bindings, polls.take(i)).contains(k),
        forall|i: int|
            0 <= i < polls.len() ==> ((#[trigger] check_spec(pressed_after_checks(pressed, bindings, polls.take(i)), bindings, polls[i].0, polls[i].1)).1
                matches Some(a) ==> exists|j: int|
                0 <= j < bindings.len() && #[trigger] bindings[j].action == a && bindings[j].key != k
                    && polls[i].0.contains(bindings[j].key)),
    decreases polls.len(),
{
    if polls.len() > 0 {
        let init = polls.drop_last();
        assert forall|i: int| 0 <= i < init.len() implies (#[trigger] init[i]).0.contains(k) by {
            assert(init[i] == polls[i]);
        }
        law_check_fires_once_per_press(pressed, bindings, init, k);
        let n = polls.len() - 1;
        assert forall|i: int| 0 <= i <= polls.len() implies #[trigger] pressed_after_checks(pressed, bindings, polls.take(i)).contains(k) by {
            if i < polls.len() {
                assert(polls.take(i) =~= init.take(i));
            } else {
                assert(polls.take(i).drop_last() =~= init.take(n));
                assert(polls.take(i).last() == polls[n]);
                let p = pressed_after_checks(pressed, bindings, init.take(n));
                lemma_decide_step(p, bindings, polls[n].0);
            }
        }
        assert forall|i: int|
            0 <= i < polls.len() implies ((#[trigger] check_spec(pressed_after_checks(pressed, bindings, polls.take(i)), bindings, polls[i].0, polls[i].1)).1
                matches Some(a) ==> exists|j: int|
                0 <= j < bindings.len() && #[trigger] bindings[j].action == a && bindings[j].key != k
                    && polls[i].0.contains(bindings[j].key)) by {
            let p = pressed_after_checks(pressed, bindings, polls.take(i));
            assert(p.contains(k));
            lemma_decide_step(p, bindings, polls[i].0);
            let d = check_spec(p, bindings, polls[i].0, polls[i].1);
            if d.1 is Some {
                let a = d.1->0;
                let j = choose|j: int| 0 <= j < bindings.len() && #[trigger] bindings[j].action == a
                    && polls[i].0.contains(bindings[j].key) && !p.contains(bindings[j].key);
                assert(bindings[j].key != k);
            }
        }
    }
}

/// Only the handled keys that are down matter to a decision.
proof fn lemma_decide_held_only(p: Set<Key>, q: Set<Key>, bindings: Seq<ParsedBinding>, keys: Seq<Key>)
    requires
        forall|k: Key| keys.contains(k) ==> (p.contains(k) == q.contains(k)),
    ensures
        decide_spec(p, bindings, keys).1 == decide_spec(q, bindings, keys).1,
        forall|k: Key| keys.contains(k) ==> (decide_spec(p, bindings, keys).0.contains(k) == decide_spec(q, bindings, keys).0.contains(k)),
    decreases bindings.len(),
{
    if bindings.len() > 0 {
        let b = bindings[0];
        if keys.contains(b.key) {
            if !modifier_ok(b.modifier, keys) {
                lemma_decide_held_only(p, q, bindings.drop_first(), keys);
            }
        } else {
            lemma_decide_held_only(p.remove(b.key), q.remove(b.key), bindings.drop_first(), keys);
        }
    }
}

/// Taking a key that is up out of the handled set changes no later decision.
proof fn lemma_decide_ignores_released(pressed: Set<Key>, bindings: Seq<ParsedBinding>, keys: Seq<Key>)
    requires
        bindings.len() > 0,
        !keys.contains(bindings[0].key),
    ensures
        decide_spec(pressed, bindings, keys) == decide_spec(pressed.remove(bindings[0].key), bindings.drop_first(), keys),
{
}

/// A key released and pressed again fires again: once no handled key is down,
/// the first binding whose key is down with its modifier condition met fires.
pub proof fn law_fresh_press_fires(pressed: Set<Key>, bindings: Seq<ParsedBinding>, keys: Seq<Key>, i: int)
    requires
        0 <= i < bindings.len(),
        forall|k: Key| pressed.contains(k) ==> !keys.contains(k),
        keys.contains(bindings[i].key),
        modifier_ok(bindings[i].modifier, keys),
        forall|j: int| 0 <= j < i ==> !(keys.contains(#[trigger] bindings[j].key) && modifier_ok(bindings[j].modifier, keys)),
    ensures
        decide_spec(pressed, bindings, keys).1 == Some(bindings[i].action),
    decreases i,
{
    if i > 0 {
        let b = bindings[0];
        assert(!(keys.contains(bindings[0].key) && modifier_ok(bindings[0].modifier, keys)));
        let rest = bindings.drop_first();
        assert forall|j: int| 0 <= j < i - 1 implies !(keys.contains(#[trigger] rest[j].key) && modifier_ok(rest[j].modifier, keys)) by {
            assert(rest[j] == bindings[j + 1]);
        }
        assert(rest[i - 1] == bindings[i]);
        if keys.contains(b.key) {
            law_fresh_press_fires(pressed, rest, keys, i - 1);
        } else {
            law_fresh_press_fires(pressed.remove(b.key), rest, keys, i - 1);
        }
    } else {
        assert(!pressed.contains(bindings[0].key));
    }
}

/// A hotkey without modifier never fires while Ctrl, Shift or Alt is held:
/// with only such hotkeys, a held modifier means no action.
pub proof fn law_modifier_blocks_plain_hotkeys(pressed: Set<Key>, bindings: Seq<ParsedBinding>, keys: Seq<Key>, m: Key)
    requires
        forall|j: int| 0 <= j < bindings.len() ==> (#[trigger] bindings[j]).modifier is None,
        m == Key::LControl || m == Key::RControl || m == Key::LShift || m == Key::RShift
            || m == Key::LAlt || m == Key::RAlt,
        keys.contains(m),
    ensures
        decide_spec(pressed, bindings, keys).1 is None,
    decreases bindings.len(),
{
    if bindings.len() > 0 {
        let rest = bindings.drop_first();
        assert(bindings[0].modifier is None);
        assert forall|j: int| 0 <= j < rest.len() implies (#[trigger] rest[j]).modifier is None by {
            assert(rest[j] == bindings[j + 1]);
        }
        if keys.contains(bindings[0].key) {
            law_modifier_blocks_plain_hotkeys(pressed, rest, keys, m);
        } else {
            law_modifier_blocks_plain_hotkeys(pressed.remove(bindings[0].key), rest, keys, m);
        }
    }
}

} // verus!
