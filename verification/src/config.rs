//! Settings of the application that hold no floating-point values.
//!
//! The settings file itself (`config.json`) is read and written by the
//! program around the library.

use vstd::prelude::*;

verus! {

/// Region of the screen that is captured.
#[derive(Debug, Clone)]
pub struct RegionConfig {
    pub x: u32,
    pub y: u32,
    pub width: u32,
    pub height: u32,
}

impl Default for RegionConfig {
    fn default() -> (r: Self)
        ensures
            r.x == 0 && r.y == 0 && r.width == 1920 && r.height == 1080,
    {
        RegionConfig { x: 0, y: 0, width: 1920, height: 1080 }
    }
}

/// Where and how the overlay is drawn.
#[derive(Debug, Clone)]
pub struct OverlayConfig {
    pub x: u32,
    pub y: u32,
    pub width: u32,
    pub height: u32,
    pub background_type: String,
    pub background_color: [u8; 4],
    pub background_image_path: String,
    /// When set, a translucent background is drawn; otherwise only outlined text.
    pub show_background: bool,
}

impl Default for OverlayConfig {
    fn default() -> (r: Self)
        ensures
            r.x == 400 && r.y == 100 && r.width == 1200 && r.height == 200,
            r.background_type@ == "solid"@,
            r.background_color@ == seq![0u8, 0u8, 0u8, 235u8],
            r.background_image_path@ == "backgrounds/custom.png"@,
            !r.show_background,
    {
        OverlayConfig {
            x: 400,
            y: 100,
            width: 1200,
            height: 200,
            background_type: String::from_str("solid"),
            background_color: [0, 0, 0, 235],
            background_image_path: String::from_str("backgrounds/custom.png"),
            show_background: false,
        }
    }
}

/// A key combination: an optional modifier name ("Ctrl", "Shift", "Alt" or
/// empty) and a key name.
#[derive(Debug, Clone)]
pub struct HotkeyBinding {
    pub modifier: String,
    pub key: String,
}

/// The binding with this modifier name and key name.
pub fn binding(modifier: &str, key: &str) -> (b: HotkeyBinding)
    ensures
        b.modifier@ == modifier@,
        b.key@ == key@,
{
    HotkeyBinding { modifier: String::from_str(modifier), key: String::from_str(key) }
}

/// The key combination bound to each action.
#[derive(Debug, Clone)]
pub struct HotkeyConfig {
    pub translate_fullscreen: HotkeyBinding,
    pub translate_region: HotkeyBinding,
    pub select_region: HotkeyBinding,
    pub select_subtitle_region: HotkeyBinding,
    pub toggle_subtitle_areas_preview: HotkeyBinding,
    pub toggle_subtitle_mode: HotkeyBinding,
    pub hide_translation: HotkeyBinding,
    pub open_settings: HotkeyBinding,
}

impl Default for HotkeyConfig {
    /// The keypad keys without modifier; the preview of the subtitle areas
    /// and the settings window are on Ctrl with a keypad key.
    fn default() -> (r: Self)
        ensures
            r.translate_fullscreen.modifier@ == ""@ && r.translate_fullscreen.key@ == "NumpadSubtract"@,
            r.translate_region.modifier@ == ""@ && r.translate_region.key@ == "NumpadAdd"@,
            r.select_region.modifier@ == ""@ && r.select_region.key@ == "NumpadMultiply"@,
            r.select_subtitle_region.modifier@ == ""@ && r.select_subtitle_region.key@ == "NumpadDivide"@,
            r.toggle_subtitle_areas_preview.modifier@ == "Ctrl"@
                && r.toggle_subtitle_areas_preview.key@ == "NumpadDivide"@,
            r.toggle_subtitle_mode.modifier@ == ""@ && r.toggle_subtitle_mode.key@ == "Numpad0"@,
            r.hide_translation.modifier@ == ""@ && r.hide_translation.key@ == "NumpadDecimal"@,
            r.open_settings.modifier@ == "Ctrl"@ && r.open_settings.key@ == "NumpadMultiply"@,
    {
        HotkeyConfig {
            translate_fullscreen: binding("", "NumpadSubtract"),
            translate_region: binding("", "NumpadAdd"),
            select_region: binding("", "NumpadMultiply"),
            select_subtitle_region: binding("", "NumpadDivide"),
            toggle_subtitle_areas_preview: binding("Ctrl", "NumpadDivide"),
            toggle_subtitle_mode: binding("", "Numpad0"),
            hide_translation: binding("", "NumpadDecimal"),
            open_settings: binding("Ctrl", "NumpadMultiply"),
        }
    }
}

/// Drop shadow behind text.
#[derive(Debug, Clone)]
pub struct ShadowConfig {
    pub enabled: bool,
    pub offset_x: i32,
    pub offset_y: i32,
    /// RGBA.
    pub color: [u8; 4],
    pub blur: u32,
}

impl Default for ShadowConfig {
    fn default() -> (r: Self)
        ensures
            !r.enabled && r.offset_x == 2 && r.offset_y == 2 && r.blur == 0,
            r.color@ == seq![0u8, 0u8, 0u8, 180u8],
    {
        ShadowConfig { enabled: false, offset_x: 2, offset_y: 2, color: [0, 0, 0, 180], blur: 0 }
    }
}

/// Outline around text.
#[derive(Debug, Clone)]
pub struct OutlineConfig {
    pub enabled: bool,
    pub width: u32,
    /// RGBA.
    pub color: [u8; 4],
}

impl Default for OutlineConfig {
    fn default() -> (r: Self)
        ensures
            !r.enabled && r.width == 2,
            r.color@ == seq![0u8, 0u8, 0u8, 255u8],
    {
        OutlineConfig { enabled: false, width: 2, color: [0, 0, 0, 255] }
    }
}

/// Translation service and languages.
#[derive(Debug, Clone)]
pub struct TranslationConfig {
    /// "deepl", "google", "libretranslate" or "openai".
    pub provider: String,
    /// Source language, e.g. "EN", "JA", "auto".
    pub source_language: String,
    /// Target language, e.g. "PT-BR", "ES".
    pub target_language: String,
    /// Address of a LibreTranslate server.
    pub libretranslate_url: String,
    pub deepl_api_key: String,
    pub elevenlabs_api_key: String,
    pub elevenlabs_voice_id: String,
}

/// Address of a local LibreTranslate server, used when the settings name none.
pub fn default_libretranslate_url() -> (s: String)
    ensures
        s@ == "http://localhost:5000"@,
{
    String::from_str("http://localhost:5000")
}

impl Default for TranslationConfig {
    fn default() -> (r: Self)
        ensures
            r.provider@ == "libretranslate"@,
            r.source_language@ == "EN"@,
            r.target_language@ == "PT-BR"@,
            r.libretranslate_url@ == "http://localhost:5000"@,
            r.deepl_api_key@.len() == 0,
            r.elevenlabs_api_key@.len() == 0,
            r.elevenlabs_voice_id@.len() == 0,
    {
        TranslationConfig {
            provider: String::from_str("libretranslate"),
            source_language: String::from_str("EN"),
            target_language: String::from_str("PT-BR"),
            libretranslate_url: default_libretranslate_url(),
            deepl_api_key: String::new(),
            elevenlabs_api_key: String::new(),
            elevenlabs_voice_id: String::new(),
        }
    }
}

/// A key as the program uses it: the one in the settings file when it is set,
/// otherwise the one from the environment, otherwise empty.
pub open spec fn effective_key_spec(configured: Seq<char>, from_env: Option<Seq<char>>) -> Seq<char> {
    if configured.len() > 0 {
        configured
    } else {
        match from_env {
            Some(k) => k,
            None => Seq::empty(),
        }
    }
}

/// Chooses between the key in the settings file and the one read from the
/// environment (see `effective_key_spec`).
pub fn effective_key(configured: &str, from_env: Option<String>) -> (r: String)
    ensures
        r@ == effective_key_spec(
            configured@,
            match from_env {
                Some(k) => Some(k@),
                None => None,
            },
        ),
{
    if !configured.is_empty() {
        String::from_str(configured)
    } else {
        match from_env {
            Some(k) => k,
            None => String::new(),
        }
    }
}

} // verus!
