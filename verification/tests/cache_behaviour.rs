use game_translator::cache::{TranslationCache, CACHE_FILE};

fn s(x: &str) -> String {
    x.to_string()
}

#[test]
fn cache_get_after_set() {
    let mut c = TranslationCache::new(false);
    assert_eq!(c.get("deepl", "EN", "PT-BR", "Hello"), None);
    c.set("deepl", "EN", "PT-BR", "Hello", "Olá");
    assert_eq!(c.get("deepl", "EN", "PT-BR", "Hello"), Some(s("Olá")));
}

#[test]
fn cache_keys_separate_provider_and_languages() {
    let mut c = TranslationCache::new(false);
    c.set("deepl", "EN", "PT-BR", "Hello", "Olá");
    assert_eq!(c.get("google", "EN", "PT-BR", "Hello"), None);
    assert_eq!(c.get("deepl", "EN", "ES", "Hello"), None);
    assert_eq!(c.get("deepl", "JA", "PT-BR", "Hello"), None);
}

#[test]
fn cache_set_overwrites_and_keeps_others() {
    let mut c = TranslationCache::new(false);
    c.set("p", "a", "b", "one", "1");
    c.set("p", "a", "b", "two", "2");
    c.set("p", "a", "b", "one", "uno");
    assert_eq!(c.get("p", "a", "b", "one"), Some(s("uno")));
    assert_eq!(c.get("p", "a", "b", "two"), Some(s("2")));
    assert_eq!(c.stats().0, 2);
}

#[test]
fn cache_stats_counts_key_and_value_bytes() {
    let mut c = TranslationCache::new(false);
    assert_eq!(c.stats(), (0, 0));
    // key "p:a:b:hi" is 8 bytes, value "oi" is 2
    c.set("p", "a", "b", "hi", "oi");
    assert_eq!(c.stats(), (1, 10));
    // "ç" is two bytes
    c.set("p", "a", "b", "x", "ç");
    assert_eq!(c.stats(), (2, 10 + 7 + 2));
}

#[test]
fn cache_get_batch_partitions() {
    let mut c = TranslationCache::new(false);
    c.set("p", "en", "pt", "b", "B!");
    c.set("p", "en", "pt", "d", "D!");
    let texts = vec![s("a"), s("b"), s("c"), s("d")];
    let (found, missing) = c.get_batch("p", "en", "pt", &texts);
    assert_eq!(found, vec![(1, s("B!")), (3, s("D!"))]);
    assert_eq!(missing, vec![(0, s("a")), (2, s("c"))]);
}

#[test]
fn cache_set_batch_then_found() {
    let mut c = TranslationCache::new(true);
    let pairs = vec![(s("a"), s("A")), (s("b"), s("B")), (s("a"), s("AA"))];
    c.set_batch("p", "en", "pt", &pairs);
    assert_eq!(c.get("p", "en", "pt", "a"), Some(s("AA")));
    assert_eq!(c.get("p", "en", "pt", "b"), Some(s("B")));
    assert_eq!(c.stats().0, 2);
    assert!(c.persist_to_disk());
}

#[test]
fn cache_clear_empties() {
    let mut c = TranslationCache::new(false);
    c.set("p", "a", "b", "x", "y");
    c.clear();
    assert_eq!(c.stats(), (0, 0));
    assert_eq!(c.get("p", "a", "b", "x"), None);
    assert!(!c.persist_to_disk());
}

#[test]
fn cache_pairs_round_trip() {
    let mut c = TranslationCache::new(false);
    c.set("p", "a", "b", "x", "y");
    c.set("p", "a", "b", "z", "w");
    let pairs = c.to_pairs();
    assert_eq!(pairs.len(), 2);
    let mut d = TranslationCache::new(false);
    d.load_entries(pairs);
    assert_eq!(d.get("p", "a", "b", "x"), Some(s("y")));
    assert_eq!(d.get("p", "a", "b", "z"), Some(s("w")));
    assert_eq!(d.stats(), c.stats());
}

#[test]
fn cache_load_entries_last_wins() {
    let mut c = TranslationCache::new(false);
    c.set("p", "a", "b", "old", "gone");
    c.load_entries(vec![(s("k"), s("v1")), (s("k"), s("v2"))]);
    assert_eq!(c.stats().0, 1);
    let pairs = c.to_pairs();
    assert_eq!(pairs, vec![(s("k"), s("v2"))]);
}

#[test]
fn cache_file_name() {
    let c = TranslationCache::new(true);
    assert_eq!(c.cache_file(), CACHE_FILE);
    assert_eq!(CACHE_FILE, "translation_cache.json");
}

#[test]
fn cache_json_round_trip() {
    let mut c = TranslationCache::new(true);
    c.set("deepl", "EN", "PT-BR", "Hello", "Olá");
    c.set("google", "en", "pt", "Say \"hi\"", "Diga \"oi\"");
    let text = c.to_json();
    let mut d = TranslationCache::new(true);
    assert!(d.load_from_json(&text));
    assert_eq!(d.get("deepl", "EN", "PT-BR", "Hello"), Some(s("Olá")));
    assert_eq!(d.get("google", "en", "pt", "Say \"hi\""), Some(s("Diga \"oi\"")));
    assert_eq!(d.to_pairs().len(), 2);
}

#[test]
fn cache_loads_saved_file_text() {
    let mut c = TranslationCache::new(true);
    assert!(c.load_from_json("{\"deepl:EN:PT-BR:Yes\": \"Sim\"}"));
    assert_eq!(c.get("deepl", "EN", "PT-BR", "Yes"), Some(s("Sim")));
    assert_eq!(c.to_pairs().len(), 1);
}

#[test]
fn cache_ignores_text_that_is_not_an_object_of_strings() {
    let mut c = TranslationCache::new(true);
    c.set("deepl", "EN", "PT-BR", "Hello", "Olá");
    assert!(!c.load_from_json("not json"));
    assert!(!c.load_from_json("[\"a\"]"));
    assert!(!c.load_from_json("{\"k\": 1}"));
    assert_eq!(c.get("deepl", "EN", "PT-BR", "Hello"), Some(s("Olá")));
    assert_eq!(c.to_pairs().len(), 1);
}
