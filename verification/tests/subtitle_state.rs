use game_translator::subtitle::{SubtitleState, MAX_SUBTITLE_HISTORY, REQUIRED_STABLE_COUNT};

#[test]
fn subtitle_confirmed_on_second_sighting() {
    let mut st = SubtitleState::new(3, 10);
    assert_eq!(st.process_detected_text("  Where are you going?  "), None);
    assert_eq!(
        st.process_detected_text("Where are you going?"),
        Some("Where are you going?".to_string())
    );
    assert_eq!(REQUIRED_STABLE_COUNT, 2);
}

#[test]
fn subtitle_not_repeated_while_on_screen() {
    let mut st = SubtitleState::new(3, 10);
    st.process_detected_text("Hello there");
    assert!(st.process_detected_text("Hello there").is_some());
    assert_eq!(st.process_detected_text("Hello there"), None);
    assert_eq!(st.process_detected_text("Hello there"), None);
    // a small OCR variation of the same line is still the same line
    assert_eq!(st.process_detected_text("Hello, there!"), None);
}

#[test]
fn subtitle_short_texts_ignored() {
    let mut st = SubtitleState::new(3, 10);
    assert_eq!(st.process_detected_text("ok"), None);
    assert_eq!(st.process_detected_text("ok"), None);
    assert_eq!(st.process_detected_text("!!!"), None);
    assert_eq!(st.process_detected_text("!!!"), None);
}

#[test]
fn subtitle_changing_text_restarts_count() {
    let mut st = SubtitleState::new(3, 10);
    assert_eq!(st.process_detected_text("first line of text"), None);
    assert_eq!(st.process_detected_text("a completely different one"), None);
    assert_eq!(
        st.process_detected_text("a completely different one"),
        Some("a completely different one".to_string())
    );
}

#[test]
fn subtitle_similar_variant_counts_as_same() {
    let mut st = SubtitleState::new(3, 10);
    assert_eq!(st.process_detected_text("The quick brown fox"), None);
    // the candidate text (first sighting) is what gets confirmed
    assert_eq!(
        st.process_detected_text("The quick brown fax"),
        Some("The quick brown fox".to_string())
    );
}

#[test]
fn subtitle_history_keeps_last_ten() {
    let mut st = SubtitleState::new(3, 10);
    assert!(!st.has_subtitles());
    for i in 0..15 {
        st.add_translated_subtitle(format!("line {}", i));
    }
    let h = st.get_subtitle_history();
    assert_eq!(h.len(), MAX_SUBTITLE_HISTORY);
    assert_eq!(h[0].translated, "line 5");
    assert_eq!(h[9].translated, "line 14");
    assert!(st.has_subtitles());
}

#[test]
fn subtitle_clear_forgets_everything() {
    let mut st = SubtitleState::new(3, 10);
    st.process_detected_text("something to say");
    st.process_detected_text("something to say");
    st.add_translated_subtitle("algo a dizer".to_string());
    st.clear();
    assert!(!st.has_subtitles());
    assert!(st.get_subtitle_history().is_empty());
    // the last confirmed text is forgotten: the same line is confirmed again
    assert_eq!(st.process_detected_text("something to say"), None);
    assert_eq!(
        st.process_detected_text("something to say"),
        Some("something to say".to_string())
    );
}

#[test]
fn subtitle_confirmed_again_after_clear() {
    let mut st = SubtitleState::new(3, 10);
    st.process_detected_text("Hello there");
    assert_eq!(st.process_detected_text("Hello there"), Some("Hello there".to_string()));
    st.clear();
    assert!(!st.has_subtitles());
    assert_eq!(st.process_detected_text("Hello there"), None);
    assert_eq!(st.process_detected_text("Hello there"), Some("Hello there".to_string()));
}
