use game_translator::app_state::{CaptureMode, CaptureRegion};
use game_translator::cache::TranslationCache;
use game_translator::config::OverlayConfig;
use game_translator::hotkey::HotkeyAction;
use game_translator::processing::{
    region_within_screen,
    capture_offset, capture_target, plan_translation_batch, record_subtitle_translation,
    speech_enabled, speech_text, subtitle_context, take_cached_subtitle,
};
use game_translator::subtitle::SubtitleState;

fn strs(v: &[&str]) -> Vec<String> {
    v.iter().map(|x| x.to_string()).collect()
}

#[test]
fn batch_plan_uses_cache_and_cleans() {
    let mut cache = TranslationCache::new(false);
    cache.set("google", "EN", "PT-BR", "Hello", "Olá");
    let lines = strs(&["  Hello ", "W@it", "Hello"]);
    let plan = plan_translation_batch(&cache, "google", "EN", "PT-BR", &lines);
    assert_eq!(plan.line_texts(), strs(&["Hello", "Wait", "Hello"]));
    assert_eq!(plan.pending_texts(), strs(&["Wait"]));
}

#[test]
fn batch_complete_fills_and_caches() {
    let mut cache = TranslationCache::new(false);
    cache.set("google", "EN", "PT-BR", "Hello", "Olá");
    let lines = strs(&["Hello", "Wait", "Go"]);
    let plan = plan_translation_batch(&cache, "google", "EN", "PT-BR", &lines);
    assert_eq!(plan.pending_texts(), strs(&["Wait", "Go"]));
    let result = plan.complete(&strs(&["Espere", "Vá"]), &mut cache, "google", "EN", "PT-BR");
    assert_eq!(result, strs(&["Olá", "Espere", "Vá"]));
    assert_eq!(cache.get("google", "EN", "PT-BR", "Wait"), Some("Espere".to_string()));
    assert_eq!(cache.get("google", "EN", "PT-BR", "Go"), Some("Vá".to_string()));
    // a second capture of the same lines needs no request
    let again = plan_translation_batch(&cache, "google", "EN", "PT-BR", &lines);
    assert!(again.pending_texts().is_empty());
    assert_eq!(again.complete(&[], &mut cache, "google", "EN", "PT-BR"), strs(&["Olá", "Espere", "Vá"]));
}

#[test]
fn batch_complete_with_fewer_answers() {
    let mut cache = TranslationCache::new(false);
    let lines = strs(&["one", "two", "three"]);
    let plan = plan_translation_batch(&cache, "p", "a", "b", &lines);
    let result = plan.complete(&strs(&["um"]), &mut cache, "p", "a", "b");
    assert_eq!(result, strs(&["um", "", ""]));
    assert_eq!(cache.stats().0, 1);
    assert_eq!(cache.get("p", "a", "b", "two"), None);
}

#[test]
fn capture_targets() {
    let region = CaptureRegion { x: 10, y: 20, width: 300, height: 40 };
    let mut overlay = OverlayConfig::default();
    overlay.x = 1;
    overlay.y = 2;
    overlay.width = 3;
    overlay.height = 4;
    assert_eq!(
        capture_target(HotkeyAction::TranslateRegion, &region, &overlay),
        Some((region, CaptureMode::Region))
    );
    assert_eq!(
        capture_target(HotkeyAction::TranslateFullScreen, &region, &overlay),
        Some((CaptureRegion { x: 1, y: 2, width: 3, height: 4 }, CaptureMode::FullScreen))
    );
    assert_eq!(capture_target(HotkeyAction::SelectRegion, &region, &overlay), None);
    assert_eq!(capture_offset(HotkeyAction::TranslateRegion, 10, 20), (10, 20));
    assert_eq!(capture_offset(HotkeyAction::TranslateFullScreen, 10, 20), (0, 0));
}

#[test]
fn subtitle_context_last_lines() {
    let mut st = SubtitleState::new(3, 10);
    for t in ["a", "b", "c", "d"] {
        st.add_translated_subtitle(t.to_string());
    }
    let h = st.get_subtitle_history();
    assert_eq!(subtitle_context(&h, "openai", 2), strs(&["c", "d"]));
    assert_eq!(subtitle_context(&h, "openai", 10), strs(&["a", "b", "c", "d"]));
    assert!(subtitle_context(&h, "openai", 0).is_empty());
    assert!(subtitle_context(&h, "deepl", 3).is_empty());
}

#[test]
fn subtitle_cache_hit_and_record() {
    let mut cache = TranslationCache::new(false);
    let mut st = SubtitleState::new(3, 10);
    assert!(!take_cached_subtitle(&cache, &mut st, "p", "en", "pt", "Hi there"));
    assert!(!st.has_subtitles());
    record_subtitle_translation(&mut cache, &mut st, "p", "en", "pt", "Hi there", &strs(&["Oi", "x"]));
    assert_eq!(cache.get("p", "en", "pt", "Hi there"), Some("Oi".to_string()));
    assert_eq!(st.get_subtitle_history()[0].translated, "Oi");
    assert!(take_cached_subtitle(&cache, &mut st, "p", "en", "pt", "Hi there"));
    assert_eq!(st.get_subtitle_history().len(), 2);
    // no answer: nothing changes
    record_subtitle_translation(&mut cache, &mut st, "p", "en", "pt", "Other", &[]);
    assert_eq!(st.get_subtitle_history().len(), 2);
    assert_eq!(cache.stats().0, 1);
}

#[test]
fn speech_text_and_switch() {
    assert_eq!(speech_text(&strs(&["Olá", "", "mundo", ""])), "Olá mundo");
    assert_eq!(speech_text(&strs(&["", ""])), "");
    assert_eq!(speech_text(&[]), "");
    assert!(speech_enabled(true, "key", "voice"));
    assert!(!speech_enabled(true, "", "voice"));
    assert!(!speech_enabled(true, "key", ""));
    assert!(!speech_enabled(false, "key", "voice"));
}

#[test]
fn region_bounds() {
    assert!(region_within_screen(0, 0, 1920, 1080, 1920, 1080));
    assert!(!region_within_screen(1, 0, 1920, 1080, 1920, 1080));
    assert!(!region_within_screen(0, 5, 10, 1076, 1920, 1080));
    // no overflow for huge values
    assert!(!region_within_screen(u32::MAX, 0, 2, 1, u32::MAX, 10));
}
