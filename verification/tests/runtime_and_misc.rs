use game_translator::app_state::{AppCommand, CaptureMode, CaptureRegion, TranslationDisplay};
use game_translator::config::{
    default_libretranslate_url, effective_key, HotkeyConfig, OutlineConfig, OverlayConfig,
    RegionConfig, ShadowConfig, TranslationConfig,
};
use game_translator::hotkey::HotkeyAction;
use game_translator::preprocess::{dilate_gray, erode_gray};
use game_translator::runtime::{
    apply_command, config_reload_due, dispatch_hotkey, CommandEffect, HotkeyEffect, RuntimeFlags,
    SettingsSession,
};
use game_translator::tts::{tts_endpoint, ELEVENLABS_MODEL_ID};
use game_translator::windows_overlay::{
    apply_click_through_mode, click_through_decision, ClickThroughAction, ClickThroughTimer,
};

#[test]
fn erosion_takes_darkest_neighbour() {
    // 3x3 image with one dark pixel in the middle
    let img = vec![9, 9, 9, 9, 1, 9, 9, 9, 9];
    assert_eq!(erode_gray(&img, 3, 3, 1), vec![1; 9]);
    assert_eq!(erode_gray(&img, 3, 3, 0), img);
    assert_eq!(dilate_gray(&img, 3, 3, 1), vec![9; 9]);
}

#[test]
fn morphology_on_a_row() {
    let row = vec![0, 0, 255, 0, 0, 0];
    assert_eq!(dilate_gray(&row, 6, 1, 1), vec![0, 255, 255, 255, 0, 0]);
    assert_eq!(erode_gray(&vec![255, 255, 0, 255, 255, 255], 6, 1, 2), vec![0, 0, 0, 0, 0, 255]);
    assert_eq!(erode_gray(&vec![], 0, 0, 3), Vec::<u8>::new());
}

#[test]
fn click_through_decisions() {
    assert_eq!(click_through_decision(true, Some(10)), ClickThroughAction::RemoveClickThrough);
    assert_eq!(click_through_decision(false, None), ClickThroughAction::MakeClickThrough);
    assert_eq!(click_through_decision(false, Some(501)), ClickThroughAction::MakeClickThrough);
    assert_eq!(click_through_decision(false, Some(500)), ClickThroughAction::Keep);
    let mut timer = ClickThroughTimer::new();
    assert_eq!(apply_click_through_mode(false, &mut timer), ClickThroughAction::MakeClickThrough);
    // right after, the style is kept
    assert_eq!(apply_click_through_mode(false, &mut timer), ClickThroughAction::Keep);
    assert_eq!(apply_click_through_mode(true, &mut timer), ClickThroughAction::RemoveClickThrough);
}

fn flags() -> RuntimeFlags {
    RuntimeFlags { settings_mode: false, subtitle_mode_active: false, subtitle_areas_preview_active: false }
}

#[test]
fn hotkey_dispatch() {
    let mut f = flags();
    assert_eq!(dispatch_hotkey(&mut f, HotkeyAction::SelectRegion), HotkeyEffect::Send(AppCommand::OpenRegionSelector));
    assert_eq!(dispatch_hotkey(&mut f, HotkeyAction::SelectSubtitleRegion), HotkeyEffect::Send(AppCommand::OpenSubtitleRegionSelector));
    assert_eq!(dispatch_hotkey(&mut f, HotkeyAction::ToggleSubtitleMode), HotkeyEffect::SubtitleModeSwitched(true));
    assert!(f.subtitle_mode_active);
    assert_eq!(dispatch_hotkey(&mut f, HotkeyAction::ToggleSubtitleMode), HotkeyEffect::SubtitleModeSwitched(false));
    assert_eq!(f, flags());
    assert_eq!(dispatch_hotkey(&mut f, HotkeyAction::ToggleSubtitleAreasPreview), HotkeyEffect::PreviewSwitched(true));
    assert_eq!(dispatch_hotkey(&mut f, HotkeyAction::HideTranslation), HotkeyEffect::ClearTranslations);
    assert_eq!(dispatch_hotkey(&mut f, HotkeyAction::TranslateRegion), HotkeyEffect::Translate(HotkeyAction::TranslateRegion));
    assert_eq!(dispatch_hotkey(&mut f, HotkeyAction::TranslateFullScreen), HotkeyEffect::Translate(HotkeyAction::TranslateFullScreen));
    assert_eq!(dispatch_hotkey(&mut f, HotkeyAction::OpenSettings), HotkeyEffect::Send(AppCommand::OpenSettings));
}

#[test]
fn settings_mode_blocks_hotkeys() {
    let mut f = RuntimeFlags { settings_mode: true, ..flags() };
    assert_eq!(dispatch_hotkey(&mut f, HotkeyAction::ToggleSubtitleMode), HotkeyEffect::Ignore);
    assert!(!f.subtitle_mode_active);
    assert_eq!(dispatch_hotkey(&mut f, HotkeyAction::TranslateRegion), HotkeyEffect::Ignore);
    assert_eq!(dispatch_hotkey(&mut f, HotkeyAction::OpenSettings), HotkeyEffect::Send(AppCommand::CloseSettings));
}

#[test]
fn settings_commands() {
    let mut f = flags();
    let mut s = SettingsSession { editing: false, tab: 3, has_status: true, positioned: true };
    assert_eq!(apply_command(&mut f, &mut s, AppCommand::OpenSettings), CommandEffect::BeginEditing);
    assert!(f.settings_mode);
    assert_eq!(s, SettingsSession { editing: true, tab: 0, has_status: false, positioned: true });
    assert_eq!(apply_command(&mut f, &mut s, AppCommand::CloseSettings), CommandEffect::RestoreOverlay);
    assert!(!f.settings_mode);
    assert_eq!(s, SettingsSession { editing: false, tab: 0, has_status: false, positioned: false });
    assert_eq!(apply_command(&mut f, &mut s, AppCommand::OpenRegionSelector), CommandEffect::SelectCaptureRegion);
    assert_eq!(apply_command(&mut f, &mut s, AppCommand::OpenSubtitleRegionSelector), CommandEffect::SelectSubtitleRegion);
}

#[test]
fn config_reload_debounce() {
    assert!(config_reload_due(true, 500));
    assert!(!config_reload_due(true, 499));
    assert!(!config_reload_due(false, 10_000));
}

#[test]
fn tts_endpoints() {
    assert_eq!(
        tts_endpoint("key", "voice123"),
        Some("https://api.elevenlabs.io/v1/text-to-speech/voice123".to_string())
    );
    assert_eq!(tts_endpoint("", "voice123"), None);
    assert_eq!(tts_endpoint("key", ""), None);
    assert_eq!(ELEVENLABS_MODEL_ID, "eleven_multilingual_v2");
}

#[test]
fn config_defaults() {
    let r = RegionConfig::default();
    assert_eq!((r.x, r.y, r.width, r.height), (0, 0, 1920, 1080));
    let o = OverlayConfig::default();
    assert_eq!((o.x, o.y, o.width, o.height), (400, 100, 1200, 200));
    assert_eq!(o.background_color, [0, 0, 0, 235]);
    assert!(!o.show_background);
    let h = HotkeyConfig::default();
    assert_eq!(h.translate_region.key, "NumpadAdd");
    assert_eq!(h.translate_region.modifier, "");
    assert_eq!(h.hide_translation.key, "NumpadDecimal");
    assert_eq!(h.toggle_subtitle_areas_preview.modifier, "Ctrl");
    assert_eq!(h.toggle_subtitle_areas_preview.key, "NumpadDivide");
    assert_eq!(h.open_settings.modifier, "Ctrl");
    assert_eq!(h.open_settings.key, "NumpadMultiply");
    let t = TranslationConfig::default();
    assert_eq!(t.provider, "libretranslate");
    assert_eq!(t.libretranslate_url, default_libretranslate_url());
    assert_eq!(default_libretranslate_url(), "http://localhost:5000");
    let sh = ShadowConfig::default();
    let ol = OutlineConfig::default();
    assert!(!ol.enabled);
    assert_eq!(ol.width, 2);
    assert!(!sh.enabled);
    assert_eq!((sh.offset_x, sh.offset_y, sh.blur), (2, 2, 0));
    assert_eq!(sh.color, [0, 0, 0, 180]);
}

#[test]
fn keys_prefer_settings_file() {
    assert_eq!(effective_key("abc", Some("env".to_string())), "abc");
    assert_eq!(effective_key("", Some("env".to_string())), "env");
    assert_eq!(effective_key("", None), "");
}

#[test]
fn translation_display() {
    let mut d: TranslationDisplay<&str> = TranslationDisplay::new();
    assert!(d.get_translations().is_none());
    let region = CaptureRegion { x: 1, y: 2, width: 3, height: 4 };
    d.set_translations(vec!["olá"], region, CaptureMode::FullScreen);
    let (items, r, m, _) = d.get_translations().unwrap();
    assert_eq!(items, &["olá"]);
    assert_eq!(r, region);
    assert_eq!(m, CaptureMode::FullScreen);
    d.set_translations(vec![], region, CaptureMode::Region);
    assert!(d.get_translations().is_none());
    let before = std::time::Instant::now();
    d.set_translations(vec!["x"], region, CaptureMode::Region);
    let after = std::time::Instant::now();
    let (_, _, _, t1) = d.get_translations().unwrap();
    let (_, _, _, t2) = d.get_translations().unwrap();
    // the time is the one recorded when the translations were set
    assert_eq!(t1, t2);
    assert!(before <= t1 && t1 <= after);
    d.clear_translations();
    assert!(d.get_translations().is_none());
}

#[test]
fn morphology_bounds_examples() {
    let img = vec![3, 8, 1, 7, 2, 9];
    let eroded = erode_gray(&img, 3, 2, 1);
    let dilated = dilate_gray(&img, 3, 2, 1);
    for i in 0..img.len() {
        assert!(eroded[i] <= img[i]);
        assert!(dilated[i] >= img[i]);
    }
    assert_eq!(eroded, vec![2, 1, 1, 2, 1, 1]);
    assert_eq!(dilated, vec![8, 9, 9, 8, 9, 9]);
}
