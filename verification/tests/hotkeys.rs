use game_translator::config::{HotkeyBinding, HotkeyConfig};
use game_translator::hotkey::{
    modifier_to_keycode, parse_binding, string_to_keycode, HotkeyAction, HotkeyManager, Key,
    ParsedBinding, MIN_ACTION_INTERVAL_MS,
};

#[test]
fn key_names() {
    assert_eq!(string_to_keycode("F5"), Key::F5);
    assert_eq!(string_to_keycode("NumpadAdd"), Key::NumpadAdd);
    assert_eq!(string_to_keycode("7"), Key::Key7);
    assert_eq!(string_to_keycode("PageDown"), Key::PageDown);
    // unknown names fall back to Numpad0; names are case sensitive
    assert_eq!(string_to_keycode("f5"), Key::Numpad0);
    assert_eq!(string_to_keycode("Nope"), Key::Numpad0);
}

#[test]
fn modifier_names() {
    assert_eq!(modifier_to_keycode("CTRL"), Some(Key::LControl));
    assert_eq!(modifier_to_keycode("Control"), Some(Key::LControl));
    assert_eq!(modifier_to_keycode("shift"), Some(Key::LShift));
    assert_eq!(modifier_to_keycode("LAlt"), Some(Key::LAlt));
    assert_eq!(modifier_to_keycode(""), None);
    assert_eq!(modifier_to_keycode("super"), None);
}

#[test]
fn binding_parse() {
    let b = HotkeyBinding { modifier: "Alt".to_string(), key: "T".to_string() };
    assert_eq!(
        parse_binding(&b, HotkeyAction::TranslateRegion),
        ParsedBinding { modifier: Some(Key::LAlt), key: Key::T, action: HotkeyAction::TranslateRegion }
    );
}

#[test]
fn hotkey_fires_once_per_press() {
    let mut m = HotkeyManager::new(&HotkeyConfig::default());
    let down = vec![Key::NumpadAdd];
    assert_eq!(m.check_hotkey_after(&down, 1000), Some(HotkeyAction::TranslateRegion));
    assert_eq!(m.check_hotkey_after(&down, 1000), None);
    assert_eq!(m.check_hotkey_after(&vec![], 1000), None);
    assert_eq!(m.check_hotkey_after(&down, 1000), Some(HotkeyAction::TranslateRegion));
}

#[test]
fn hotkey_default_bindings() {
    let mut m = HotkeyManager::new(&HotkeyConfig::default());
    assert_eq!(m.check_hotkey_after(&vec![Key::NumpadSubtract], 500), Some(HotkeyAction::TranslateFullScreen));
    assert_eq!(m.check_hotkey_after(&vec![Key::NumpadMultiply], 500), Some(HotkeyAction::SelectRegion));
    assert_eq!(m.check_hotkey_after(&vec![Key::NumpadDivide], 500), Some(HotkeyAction::SelectSubtitleRegion));
    assert_eq!(m.check_hotkey_after(&vec![Key::Numpad0], 500), Some(HotkeyAction::ToggleSubtitleMode));
    assert_eq!(m.check_hotkey_after(&vec![Key::NumpadDecimal], 500), Some(HotkeyAction::HideTranslation));
    assert_eq!(
        m.check_hotkey_after(&vec![Key::LControl, Key::NumpadDivide], 500),
        Some(HotkeyAction::ToggleSubtitleAreasPreview)
    );
    assert_eq!(
        m.check_hotkey_after(&vec![Key::RControl, Key::NumpadMultiply], 500),
        Some(HotkeyAction::OpenSettings)
    );
}

#[test]
fn hotkey_held_key_does_not_fire_again_while_others_change() {
    let mut m = HotkeyManager::new(&HotkeyConfig::default());
    assert_eq!(m.check_hotkey_after(&vec![Key::NumpadAdd], 500), Some(HotkeyAction::TranslateRegion));
    // NumpadAdd stays down while other keys come and go
    assert_eq!(m.check_hotkey_after(&vec![Key::NumpadAdd, Key::A], 500), None);
    assert_eq!(m.check_hotkey_after(&vec![Key::NumpadAdd, Key::NumpadDecimal], 500), None);
    assert_eq!(m.check_hotkey_after(&vec![Key::NumpadDecimal], 500), Some(HotkeyAction::HideTranslation));
    assert_eq!(m.check_hotkey_after(&vec![Key::NumpadAdd], 500), Some(HotkeyAction::TranslateRegion));
}

#[test]
fn hotkey_too_soon_does_nothing() {
    let mut m = HotkeyManager::new(&HotkeyConfig::default());
    assert_eq!(MIN_ACTION_INTERVAL_MS, 200);
    assert_eq!(m.check_hotkey_after(&vec![Key::NumpadAdd], 199), None);
    // nothing was marked as handled: the same press fires once enough time passed
    assert_eq!(m.check_hotkey_after(&vec![Key::NumpadAdd], 200), Some(HotkeyAction::TranslateRegion));
}

#[test]
fn hotkey_without_modifier_needs_no_modifier_down() {
    let mut m = HotkeyManager::new(&HotkeyConfig::default());
    assert_eq!(m.check_hotkey_after(&vec![Key::LShift, Key::NumpadAdd], 1000), None);
    assert_eq!(m.check_hotkey_after(&vec![Key::NumpadAdd], 1000), Some(HotkeyAction::TranslateRegion));
}

#[test]
fn hotkey_with_modifier_either_side() {
    let b = ParsedBinding { modifier: Some(Key::LControl), key: Key::A, action: HotkeyAction::HideTranslation };
    let mut m = HotkeyManager::with_bindings(vec![b]);
    assert_eq!(m.check_hotkey_after(&vec![Key::A], 1000), None);
    assert_eq!(m.check_hotkey_after(&vec![Key::RControl, Key::A], 1000), Some(HotkeyAction::HideTranslation));
}

#[test]
fn hotkey_first_matching_binding_decides() {
    let b1 = ParsedBinding { modifier: None, key: Key::F1, action: HotkeyAction::SelectRegion };
    let b2 = ParsedBinding { modifier: None, key: Key::F2, action: HotkeyAction::OpenSettings };
    let mut m = HotkeyManager::with_bindings(vec![b1, b2]);
    assert_eq!(m.check_hotkey_after(&vec![Key::F1, Key::F2], 1000), Some(HotkeyAction::SelectRegion));
    // F1 is still held and handled: nothing fires, F2 is not tried
    assert_eq!(m.check_hotkey_after(&vec![Key::F1, Key::F2], 1000), None);
    // F1 released: F2 now fires
    assert_eq!(m.check_hotkey_after(&vec![Key::F2], 1000), Some(HotkeyAction::OpenSettings));
}

#[test]
fn hotkey_check_with_clock_runs() {
    let mut m = HotkeyManager::new(&HotkeyConfig::default());
    // right after creation less than the interval has passed, or the key fires
    let r = m.check_hotkey(&vec![Key::F12]);
    assert_eq!(r, None);
}
