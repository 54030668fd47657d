use game_translator::overlay_text::{region_overlay_text, shows_translation, subtitle_lines};
use game_translator::subtitle::SubtitleEntry;
use std::time::Instant;

fn entry(text: &str) -> SubtitleEntry {
    SubtitleEntry { translated: text.to_string(), added_at: Instant::now() }
}

#[test]
fn translation_shown_only_when_it_differs() {
    assert!(shows_translation("Hello", "Olá"));
    assert!(!shows_translation("Hello", "Hello"));
    assert!(!shows_translation("Hello", ""));
    assert!(!shows_translation("", ""));
}

#[test]
fn region_text_joins_changed_translations() {
    let pairs = vec![
        ("Start".to_string(), "Iniciar".to_string()),
        ("OK".to_string(), "OK".to_string()),
        ("Exit".to_string(), "Sair".to_string()),
    ];
    assert_eq!(region_overlay_text(&pairs), "Iniciar Sair");
}

#[test]
fn region_text_empty_when_nothing_changed() {
    let pairs = vec![("OK".to_string(), "OK".to_string())];
    assert_eq!(region_overlay_text(&pairs), "");
    assert_eq!(region_overlay_text(&[]), "");
}

#[test]
fn subtitle_lines_keep_the_last_ones() {
    let history = vec![entry("um"), entry("dois"), entry("três")];
    assert_eq!(subtitle_lines(&history, 2), vec!["- dois".to_string(), "- três".to_string()]);
    assert_eq!(subtitle_lines(&history, 5).len(), 3);
    assert_eq!(subtitle_lines(&history, 0).len(), 0);
}
