use game_translator::ocr::clean_ocr_text;
use game_translator::text::trim_chars;
use game_translator::similarity::{
    levenshtein_distance, normalize_text, texts_are_similar_charset, texts_are_similar_levenshtein,
};

#[test]
fn clean_ocr_fixes_confusions() {
    assert_eq!(clean_ocr_text("|<ill the @lien"), "Kill the alien");
    assert_eq!(clean_ocr_text("}{ello"), "Hello");
    assert_eq!(clean_ocr_text("|-|i"), "I-Ii");
    assert_eq!(clean_ocr_text("/\\ \\/"), "A V");
}

#[test]
fn clean_ocr_pipe_becomes_i() {
    assert_eq!(clean_ocr_text("|t's ok"), "It's ok");
}

#[test]
fn clean_ocr_drops_symbols_and_spaces() {
    assert_eq!(clean_ocr_text("  Hello ### world  "), "Hello world");
    assert_eq!(clean_ocr_text("Wait\u{2026} what?!"), "Wait\u{2026} what?!");
    assert_eq!(clean_ocr_text("a    b"), "a b");
}

#[test]
fn clean_ocr_empty_and_only_symbols() {
    assert_eq!(clean_ocr_text(""), "");
    assert_eq!(clean_ocr_text("### $$$"), "");
}

#[test]
fn clean_ocr_result_has_no_double_space() {
    let out = clean_ocr_text(" x  #  y   z ");
    assert!(!out.contains("  "));
    assert_eq!(out, "x y z");
}

#[test]
fn normalize_text_examples() {
    assert_eq!(normalize_text("  Hello,   World!  "), "hello world");
    assert_eq!(normalize_text("ABC"), "abc");
    assert_eq!(normalize_text(""), "");
    assert_eq!(normalize_text("a - b"), "a b");
    assert_eq!(normalize_text("- a"), "a");
    assert_eq!(normalize_text("hello\nworld"), "hello world");
    assert_eq!(normalize_text("Hello\t\u{a0}World"), "hello world");
}

#[test]
fn levenshtein_known_values() {
    assert_eq!(levenshtein_distance("kitten", "sitting"), 3);
    assert_eq!(levenshtein_distance("", "abc"), 3);
    assert_eq!(levenshtein_distance("abc", ""), 3);
    assert_eq!(levenshtein_distance("same", "same"), 0);
    assert_eq!(levenshtein_distance("ação", "acao"), 2);
}

#[test]
fn levenshtein_is_symmetric_on_examples() {
    assert_eq!(
        levenshtein_distance("flaw", "lawn"),
        levenshtein_distance("lawn", "flaw")
    );
}

#[test]
fn similar_levenshtein_threshold() {
    // similarity exactly 0.75 is not above the threshold
    assert!(!texts_are_similar_levenshtein("abcd", "abce"));
    // distance 1 over 5 characters: similarity 0.8
    assert!(texts_are_similar_levenshtein("abcde", "abcdx"));
    // characters, not bytes: "é" against "a" is totally different
    assert!(!texts_are_similar_levenshtein("é", "a"));
    assert!(texts_are_similar_levenshtein("hello world", "hello worle"));
    assert!(!texts_are_similar_levenshtein("abc", "xyz"));
    // distance 2 over 4 characters
    assert!(!texts_are_similar_levenshtein("abcd", "abxy"));
    assert!(texts_are_similar_levenshtein("", ""));
    assert!(!texts_are_similar_levenshtein("", "a"));
    assert!(texts_are_similar_levenshtein("hello world", "hello world"));
}

#[test]
fn similar_charset_examples() {
    assert!(texts_are_similar_charset("", ""));
    assert!(!texts_are_similar_charset("abc", ""));
    assert!(texts_are_similar_charset("abcdef", "fedcba"));
    // lengths differ by more than a fifth
    assert!(!texts_are_similar_charset("abcdefghij", "abc"));
    // same length, few shared characters
    assert!(!texts_are_similar_charset("abcde", "vwxyz"));
}

#[test]
fn similar_charset_ratio_boundary() {
    // 17 shared of 20 distinct: exactly 0.85, not above it
    let a = "abcdefghijklmnopqrs"; // 19 distinct: a..s
    let b = "abcdefghijklmnopqt"; // a..q and t: 18 distinct
    // shared: a..q = 17, total: a..t = 20
    assert!(!texts_are_similar_charset(a, b));
    // 18 shared of 20 distinct: 0.9
    let c = "abcdefghijklmnopqrs";
    let d = "abcdefghijklmnopqrt";
    assert!(texts_are_similar_charset(c, d));
}

#[test]
fn whitespace_set_matches_std() {
    for u in 0u32..0x11000 {
        if let Some(c) = char::from_u32(u) {
            assert_eq!(trim_chars(&vec![c]).is_empty(), c.is_whitespace(), "U+{:04X}", u);
        }
    }
}

#[test]
fn clean_ocr_twice_is_clean_once() {
    for t in ["|<ill the @lien  now", "  }{ello ][ there ", "a\\/b /\\c |-| d", "ok…  (yes)"] {
        let once = clean_ocr_text(t);
        assert_eq!(clean_ocr_text(&once), once);
    }
}
