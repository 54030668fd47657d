//! Text-processing, caching and decision logic of a screen translator for games.

pub mod text;
pub mod similarity;
pub mod clock;
pub mod subtitle;
pub mod cache;
pub mod ocr;
pub mod app_state;
pub mod config;
pub mod hotkey;
pub mod translator;
pub mod processing;
pub mod region_selector;
pub mod preprocess;
pub mod windows_overlay;
pub mod runtime;
pub mod tts;
pub mod overlay_text;
