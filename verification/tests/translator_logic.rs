use game_translator::translator::{
    google_batch_answers,
    convert_lang_code_to_google, convert_lang_code_to_libretranslate, deepl_key_missing,
    effective_provider, fallback_reply_translations, fit_translations, google_batch_text,
    google_translate_url, google_translation_from_json, missing_key_placeholders, next_openai_count,
    google_reply_result, parse_google_response,
    openai_preflight, openai_translations_from_reply, openai_user_prompt, select_provider,
    split_google_batch, strip_code_fence, JsonValue, Provider, TranslateError,
    GOOGLE_BATCH_SEPARATOR, OPENAI_PROMPT_PREFIX,
};

fn s(x: &str) -> String {
    x.to_string()
}

fn strs(v: &[&str]) -> Vec<String> {
    v.iter().map(|x| x.to_string()).collect()
}

#[test]
fn libretranslate_codes() {
    assert_eq!(convert_lang_code_to_libretranslate("PT-BR"), "pt");
    assert_eq!(convert_lang_code_to_libretranslate("pt-pt"), "pt");
    assert_eq!(convert_lang_code_to_libretranslate("EN-US"), "en");
    assert_eq!(convert_lang_code_to_libretranslate("EN"), "en");
    assert_eq!(convert_lang_code_to_libretranslate("ja"), "ja");
    assert_eq!(convert_lang_code_to_libretranslate("Auto"), "auto");
    assert_eq!(convert_lang_code_to_libretranslate("KO"), "ko");
}

#[test]
fn google_codes() {
    assert_eq!(convert_lang_code_to_google("PT-BR"), "pt");
    assert_eq!(convert_lang_code_to_google("EN-GB"), "en");
    assert_eq!(convert_lang_code_to_google("ZH"), "zh-CN");
    assert_eq!(convert_lang_code_to_google("JA"), "ja");
    assert_eq!(convert_lang_code_to_google("EN"), "en");
    assert_eq!(convert_lang_code_to_google("FR"), "fr");
}

#[test]
fn provider_selection() {
    assert_eq!(select_provider("DeepL", false), Provider::DeepL);
    assert_eq!(select_provider("google", false), Provider::Google);
    assert_eq!(select_provider("libretranslate", false), Provider::LibreTranslate);
    assert_eq!(select_provider("openai", true), Provider::OpenAI);
    assert_eq!(select_provider("openai", false), Provider::Google);
    assert_eq!(select_provider("something", true), Provider::LibreTranslate);
}

#[test]
fn openai_limit_falls_back() {
    assert_eq!(effective_provider("openai", 10, 10, "google"), "google");
    assert_eq!(effective_provider("openai", 10, 9, "google"), "openai");
    assert_eq!(effective_provider("openai", 0, 99, "google"), "openai");
    assert_eq!(effective_provider("deepl", 1, 5, "google"), "deepl");
}

#[test]
fn deepl_key_checks() {
    assert!(deepl_key_missing(""));
    assert!(deepl_key_missing("fake-api-key"));
    assert!(!deepl_key_missing("abc:fx"));
    assert_eq!(
        missing_key_placeholders(&strs(&["Hi", "Bye"])),
        strs(&["[SEM API KEY] Hi", "[SEM API KEY] Bye"])
    );
}

#[test]
fn google_batch_join_and_split() {
    let texts = strs(&["one", "two", "three"]);
    let joined = google_batch_text(&texts);
    assert_eq!(joined, format!("one{0}two{0}three", GOOGLE_BATCH_SEPARATOR));
    let back = split_google_batch(" um \n||||\n dois\n||||\ntrês ", 3);
    assert_eq!(back, strs(&["um", "dois", "três"]));
    // at most n parts are kept
    assert_eq!(split_google_batch("a||||b||||c", 2), strs(&["a", "b"]));
    assert_eq!(split_google_batch("single", 3), strs(&["single"]));
    assert_eq!(google_batch_text(&[]), "");
}

#[test]
fn google_url_encodes_text() {
    let url = google_translate_url("en", "pt", "Hello world?&");
    assert_eq!(
        url,
        "https://translate.googleapis.com/translate_a/single?client=gtx&sl=en&tl=pt&dt=t&q=Hello%20world%3F%26"
    );
    let url2 = google_translate_url("en", "pt", "ç-_.~");
    assert!(url2.ends_with("q=%C3%A7-_.~"));
}

fn sentence(t: &str, o: &str) -> JsonValue {
    JsonValue::Array(vec![JsonValue::Str(s(t)), JsonValue::Str(s(o)), JsonValue::Null])
}

#[test]
fn google_reply_concatenates_sentences() {
    let reply = JsonValue::Array(vec![
        JsonValue::Array(vec![sentence("Olá. ", "Hello. "), sentence("Tudo bem?", "How are you?")]),
        JsonValue::Null,
        JsonValue::Str(s("en")),
    ]);
    assert_eq!(google_translation_from_json(&reply), Ok(s("Olá. Tudo bem?")));
}

#[test]
fn google_reply_without_translation_is_error() {
    let empty = JsonValue::Array(vec![]);
    assert_eq!(
        google_translation_from_json(&empty),
        Err(TranslateError::NoTranslationInReply)
    );
    let odd = JsonValue::Array(vec![JsonValue::Array(vec![JsonValue::Number(s("1"))])]);
    assert_eq!(
        google_translation_from_json(&odd),
        Err(TranslateError::NoTranslationInReply)
    );
    assert_eq!(
        google_translation_from_json(&JsonValue::Bool(true)),
        Err(TranslateError::NoTranslationInReply)
    );
}

#[test]
fn openai_preflight_checks() {
    assert_eq!(openai_preflight(&[], ""), Ok(false));
    assert_eq!(
        openai_preflight(&strs(&["a"]), ""),
        Err(TranslateError::MissingApiKey)
    );
    assert_eq!(openai_preflight(&strs(&["a"]), "sk-1"), Ok(true));
}

#[test]
fn openai_prompt_holds_json_array() {
    let p = openai_user_prompt(&strs(&["Hello", "He said \"hi\""])).unwrap();
    assert_eq!(
        p,
        format!("{}{}", OPENAI_PROMPT_PREFIX, "[\"Hello\",\"He said \\\"hi\\\"\"]")
    );
}

#[test]
fn openai_reply_json_array() {
    let texts = strs(&["Hello", "Bye"]);
    let r = openai_translations_from_reply("```json\n[\"Olá\", \"Tchau\"]\n```", &texts);
    assert_eq!(r, strs(&["Olá", "Tchau"]));
}

#[test]
fn openai_reply_too_few_and_too_many() {
    let texts = strs(&["a", "b", "c"]);
    assert_eq!(
        openai_translations_from_reply("[\"A\"]", &texts),
        strs(&["A", "b", "c"])
    );
    assert_eq!(
        openai_translations_from_reply("[\"A\", \"B\", \"C\", \"D\"]", &texts),
        strs(&["A", "B", "C"])
    );
}

#[test]
fn openai_reply_plain_text_fallbacks() {
    // a single text takes the whole reply
    assert_eq!(
        openai_translations_from_reply("  Olá mundo  ", &strs(&["Hello world"])),
        strs(&["Olá mundo"])
    );
    // several texts take the cleaned lines
    let reply = "Um\n\nDois";
    assert_eq!(
        openai_translations_from_reply(reply, &strs(&["One", "Two"])),
        strs(&["Um", "Dois"])
    );
}

#[test]
fn code_fence_stripping() {
    let c: String = strip_code_fence("```json\n[1]\n```").into_iter().collect();
    assert_eq!(c, "[1]");
    let c2: String = strip_code_fence("  plain  ").into_iter().collect();
    assert_eq!(c2, "plain");
}

#[test]
fn fallback_lines_and_fit() {
    let cleaned: Vec<char> = "\"x\"\r\n\n]\ny,".chars().collect();
    assert_eq!(fallback_reply_translations(&cleaned, 2), strs(&["x", "y"]));
    assert_eq!(fallback_reply_translations(&cleaned, 1), strs(&["\"x\"\r\n\n]\ny,"]));
    // quotes are stripped before commas: a quoted item with a comma keeps its closing quote
    let listed: Vec<char> = "\"x\",\n\"y\"".chars().collect();
    assert_eq!(fallback_reply_translations(&listed, 2), strs(&["x\"", "y"]));
    assert_eq!(
        fit_translations(&strs(&["1"]), &strs(&["a", "b"])),
        strs(&["1", "b"])
    );
}

#[test]
fn google_batch_answers_need_every_piece() {
    assert_eq!(google_batch_answers("um\n||||\ndois", 2), Some(strs(&["um", "dois"])));
    assert_eq!(google_batch_answers("um||||dois||||três", 2), Some(strs(&["um", "dois"])));
    assert_eq!(google_batch_answers("um e dois", 2), None);
}

#[test]
fn google_batch_round_trip_example() {
    let texts = strs(&["Hello there", "", "a|b|c", "Bye"]);
    let joined = google_batch_text(&texts);
    assert_eq!(split_google_batch(&joined, texts.len()), texts);
}

#[test]
fn google_reply_parse_errors() {
    assert_eq!(google_reply_result(None), Err(TranslateError::InvalidJson));
    assert_eq!(
        google_reply_result(Some(JsonValue::Array(vec![]))),
        Err(TranslateError::NoTranslationInReply)
    );
    let reply = JsonValue::Array(vec![JsonValue::Array(vec![sentence("Olá", "Hello")])]);
    assert_eq!(google_reply_result(Some(reply)), Ok(s("Olá")));
}

#[test]
fn google_reply_text_parsed() {
    assert_eq!(parse_google_response("not json"), Err(TranslateError::InvalidJson));
    assert_eq!(parse_google_response("[]"), Err(TranslateError::NoTranslationInReply));
    assert_eq!(
        parse_google_response("[[[\"Olá. \",\"Hello. \",null,null,1],[\"Tudo bem?\",\"How are you?\",null]],null,\"en\"]"),
        Ok(s("Olá. Tudo bem?"))
    );
    assert_eq!(
        parse_google_response("[[[1,\"x\"],[\"só\",\"only\"],{\"a\":2}]]"),
        Ok(s("só"))
    );
}

#[test]
fn openai_request_count() {
    assert_eq!(next_openai_count("openai", 3), 4);
    assert_eq!(next_openai_count("deepl", 3), 3);
    assert_eq!(next_openai_count("openai", u32::MAX), u32::MAX);
}

#[test]
fn openai_prompt_escapes_as_json() {
    let p = openai_user_prompt(&strs(&["a\\b\n\t\u{1}\u{1f}é", "", "x\u{8}\u{c}\r"])).unwrap();
    assert_eq!(
        p,
        format!(
            "{}{}",
            OPENAI_PROMPT_PREFIX,
            "[\"a\\\\b\\n\\t\\u0001\\u001fé\",\"\",\"x\\b\\f\\r\"]"
        )
    );
    assert_eq!(openai_user_prompt(&[]).unwrap(), format!("{}[]", OPENAI_PROMPT_PREFIX));
}
