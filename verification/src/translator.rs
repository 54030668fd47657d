//! What the translation services are asked and how their replies are read.
//!
//! The requests themselves (HTTP) are made by the program around the library;
//! the library chooses the service, builds what is sent, and turns replies
//! into translations.

use vstd::prelude::*;
use vstd::utf8::encode_utf8;
use crate::text::{
    chars_eq, chars_of, lowercase_of, push_char, string_from_chars, to_lowercase, to_uppercase,
    trim_chars, trim_ws, uppercase_of,
};

verus! {

// ---------------------------------------------------------------------------
// Language codes
// ---------------------------------------------------------------------------

/// The LibreTranslate code for a language code, compared in upper case.
pub open spec fn libretranslate_code(lang: Seq<char>) -> Seq<char> {
    let u = uppercase_of(lang);
    if u == "PT-BR"@ || u == "PT-PT"@ {
        "pt"@
    } else if u == "EN-US"@ || u == "EN-GB"@ || u == "EN"@ {
        "en"@
    } else if u == "ZH"@ {
        "zh"@
    } else if u == "JA"@ {
        "ja"@
    } else if u == "ES"@ {
        "es"@
    } else if u == "FR"@ {
        "fr"@
    } else if u == "DE"@ {
        "de"@
    } else if u == "IT"@ {
        "it"@
    } else if u == "RU"@ {
        "ru"@
    } else if u == "AUTO"@ {
        "auto"@
    } else {
        lowercase_of(u)
    }
}

/// The Google Translate code for a (DeepL style) language code.
pub open spec fn google_code(lang: Seq<char>) -> Seq<char> {
    let u = uppercase_of(lang);
    if u == "PT-BR"@ || u == "PT-PT"@ {
        "pt"@
    } else if u == "EN-US"@ || u == "EN-GB"@ {
        "en"@
    } else if u == "ZH"@ {
        "zh-CN"@
    } else if u == "JA"@ {
        "ja"@
    } else {
        lowercase_of(u)
    }
}

/// A regional code of English or Portuguese, in any case, names the plain
/// language for Google and for LibreTranslate: "EN-US" and "EN-GB" give "en",
/// "PT-BR" and "PT-PT" give "pt".
pub proof fn law_regional_codes_name_the_language(lang: Seq<char>)
    ensures
        (uppercase_of(lang) == "EN-US"@ || uppercase_of(lang) == "EN-GB"@) ==> google_code(lang)
            == "en"@ && libretranslate_code(lang) == "en"@,
        (uppercase_of(lang) == "PT-BR"@ || uppercase_of(lang) == "PT-PT"@) ==> google_code(lang)
            == "pt"@ && libretranslate_code(lang) == "pt"@,
{
    reveal_strlit("EN-US");
    reveal_strlit("EN-GB");
    reveal_strlit("PT-BR");
    reveal_strlit("PT-PT");
    assert("EN-US"@[0] == 'E' && "EN-GB"@[0] == 'E' && "PT-BR"@[0] == 'P' && "PT-PT"@[0] == 'P');
}

/// Whether the characters of `v` are those of the literal `lit`.
pub(crate) fn is_literal(v: &Vec<char>, lit: &str) -> (r: bool)
    ensures
        r == (v@ == lit@),
{
    chars_eq(v, &chars_of(lit))
}

/// Converts a language code to the form LibreTranslate expects.
pub fn convert_lang_code_to_libretranslate(lang: &str) -> (r: String)
    ensures
        r@ == libretranslate_code(lang@),
{
    let upper = to_uppercase(lang);
    let u = chars_of(upper.as_str());
    if is_literal(&u, "PT-BR") || is_literal(&u, "PT-PT") {
        String::from_str("pt")
    } else if is_literal(&u, "EN-US") || is_literal(&u, "EN-GB") || is_literal(&u, "EN") {
        String::from_str("en")
    } else if is_literal(&u, "ZH") {
        String::from_str("zh")
    } else if is_literal(&u, "JA") {
        String::from_str("ja")
    } else if is_literal(&u, "ES") {
        String::from_str("es")
    } else if is_literal(&u, "FR") {
        String::from_str("fr")
    } else if is_literal(&u, "DE") {
        String::from_str("de")
    } else if is_literal(&u, "IT") {
        String::from_str("it")
    } else if is_literal(&u, "RU") {
        String::from_str("ru")
    } else if is_literal(&u, "AUTO") {
        String::from_str("auto")
    } else {
        to_lowercase(upper.as_str())
    }
}

/// Converts a DeepL style language code to the form Google Translate expects.
pub fn convert_lang_code_to_google(lang: &str) -> (r: String)
    ensures
        r@ == google_code(lang@),
{
    let upper = to_uppercase(lang);
    let u = chars_of(upper.as_str());
    if is_literal(&u, "PT-BR") || is_literal(&u, "PT-PT") {
        String::from_str("pt")
    } else if is_literal(&u, "EN-US") || is_literal(&u, "EN-GB") {
        String::from_str("en")
    } else if is_literal(&u, "ZH") {
        String::from_str("zh-CN")
    } else if is_literal(&u, "JA") {
        String::from_str("ja")
    } else {
        to_lowercase(upper.as_str())
    }
}

// ---------------------------------------------------------------------------
// Choice of service
// ---------------------------------------------------------------------------

/// A translation service.
#[derive(Debug, Clone, Copy, PartialEq, Eq, Structural)]
pub enum Provider {
    DeepL,
    Google,
    LibreTranslate,
    OpenAI,
}

/// The service a provider name from the settings selects, compared in lower
/// case. "openai" without OpenAI settings falls back to Google; an unknown
/// name selects the local LibreTranslate.
pub open spec fn provider_for(name: Seq<char>, has_openai_config: bool) -> Provider {
    let l = lowercase_of(name);
    if l == "deepl"@ {
        Provider::DeepL
    } else if l == "google"@ {
        Provider::Google
    } else if l == "libretranslate"@ {
        Provider::LibreTranslate
    } else if l == "openai"@ {
        if has_openai_config {
            Provider::OpenAI
        } else {
            Provider::Google
        }
    } else {
        Provider::LibreTranslate
    }
}

/// Chooses the service for a provider name (see `provider_for`).
pub fn select_provider(provider: &str, has_openai_config: bool) -> (p: Provider)
    ensures
        p == provider_for(provider@, has_openai_config),
{
    let lower = to_lowercase(provider);
    let l = chars_of(lower.as_str());
    if is_literal(&l, "deepl") {
        Provider::DeepL
    } else if is_literal(&l, "google") {
        Provider::Google
    } else if is_literal(&l, "libretranslate") {
        Provider::LibreTranslate
    } else if is_literal(&l, "openai") {
        if has_openai_config {
            Provider::OpenAI
        } else {
            Provider::Google
        }
    } else {
        Provider::LibreTranslate
    }
}

/// The service used when the OpenAI request limit of the session is reached:
/// with provider "openai", a positive limit and `count` at or above it, the
/// fallback provider; otherwise the configured provider.
pub open spec fn effective_provider_spec(
    provider: Seq<char>,
    max_requests: u32,
    count: u32,
    fallback: Seq<char>,
) -> Seq<char> {
    if provider == "openai"@ && max_requests > 0 && count >= max_requests {
        fallback
    } else {
        provider
    }
}

/// The provider to use given the OpenAI request limit (see `effective_provider_spec`).
pub fn effective_provider(provider: &str, max_requests: u32, count: u32, fallback: &str) -> (r:
    String)
    ensures
        r@ == effective_provider_spec(provider@, max_requests, count, fallback@),
{
    let p = chars_of(provider);
    if is_literal(&p, "openai") && max_requests > 0 && count >= max_requests {
        String::from_str(fallback)
    } else {
        String::from_str(provider)
    }
}

/// The number of OpenAI requests of the session after a batch was sent to
/// `provider`: one more when it was "openai" (saturating at `u32::MAX`), the
/// same otherwise.
pub fn next_openai_count(provider: &str, count: u32) -> (r: u32)
    ensures
        provider@ == "openai"@ ==> r == if count < u32::MAX { count + 1 } else { count as int },
        provider@ != "openai"@ ==> r == count,
{
    let p = chars_of(provider);
    if is_literal(&p, "openai") {
        count.saturating_add(1)
    } else {
        count
    }
}

// ---------------------------------------------------------------------------
// DeepL
// ---------------------------------------------------------------------------

/// Whether a DeepL API key is missing: empty or the placeholder "fake-api-key".
pub open spec fn deepl_key_missing_spec(api_key: Seq<char>) -> bool {
    api_key.len() == 0 || api_key == "fake-api-key"@
}

/// Whether a DeepL API key is missing (see `deepl_key_missing_spec`).
pub fn deepl_key_missing(api_key: &str) -> (r: bool)
    ensures
        r == deepl_key_missing_spec(api_key@),
{
    api_key.is_empty() || is_literal(&chars_of(api_key), "fake-api-key")
}

/// What is shown in place of a translation when no DeepL key is set: each
/// text behind the marker "[SEM API KEY] ".
pub open spec fn no_key_placeholders(texts: Seq<Seq<char>>) -> Seq<Seq<char>> {
    texts.map_values(|t: Seq<char>| "[SEM API KEY] "@ + t)
}

/// Views of a list of strings.
pub open spec fn views(s: Seq<String>) -> Seq<Seq<char>> {
    s.map_values(|t: String| t@)
}

/// The placeholders for the texts when no DeepL key is set.
pub fn missing_key_placeholders(texts: &[String]) -> (r: Vec<String>)
    ensures
        views(r@) == no_key_placeholders(views(texts@)),
{
    let mut r: Vec<String> = Vec::new();
    let mut i: usize = 0;
    while i < texts.len()
        invariant
            i <= texts@.len(),
            views(r@) == no_key_placeholders(views(texts@)).take(i as int),
        decreases texts@.len() - i,
    {
        let mut s = String::from_str("[SEM API KEY] ");
        s.append(texts[i].as_str());
        let ghost before = views(r@);
        r.push(s);
        assert(views(r@) =~= before.push("[SEM API KEY] "@ + texts@[i as int]@));
        i = i + 1;
        assert(views(r@) =~= no_key_placeholders(views(texts@)).take(i as int));
    }
    assert(no_key_placeholders(views(texts@)).take(i as int) =~= no_key_placeholders(views(texts@)));
    r
}

// ---------------------------------------------------------------------------
// Splitting and joining
// ---------------------------------------------------------------------------

/// The pieces of `s` between occurrences of `sep`, found from left to right
/// without overlaps (what `str::split` gives for a non-empty separator).
pub open spec fn split_spec(s: Seq<char>, sep: Seq<char>) -> Seq<Seq<char>>
    decreases s.len(),
{
    if s.len() == 0 || sep.len() == 0 {
        seq![s]
    } else if sep.is_prefix_of(s) {
        seq![Seq::<char>::empty()] + split_spec(s.skip(sep.len() as int), sep)
    } else {
        let r = split_spec(s.skip(1), sep);
        r.update(0, seq![s[0]] + r[0])
    }
}

/// The pieces joined with `sep` between consecutive ones.
pub open spec fn join_spec(parts: Seq<Seq<char>>, sep: Seq<char>) -> Seq<char>
    decreases parts.len(),
{
    if parts.len() == 0 {
        Seq::empty()
    } else if parts.len() == 1 {
        parts[0]
    } else {
        join_spec(parts.drop_last(), sep) + sep + parts.last()
    }
}

proof fn lemma_split_nonempty(s: Seq<char>, sep: Seq<char>)
    ensures
        split_spec(s, sep).len() >= 1,
    decreases s.len(),
{
    if s.len() > 0 && sep.len() > 0 {
        if sep.is_prefix_of(s) {
            lemma_split_nonempty(s.skip(sep.len() as int), sep);
        } else {
            lemma_split_nonempty(s.skip(1), sep);
        }
    }
}

/// Whether `pat` occurs in `s` at position `i`.
pub(crate) fn occurs_at(s: &Vec<char>, i: usize, pat: &Vec<char>) -> (r: bool)
    requires
        i <= s@.len(),
    ensures
        r == pat@.is_prefix_of(s@.skip(i as int)),
{
    if pat.len() > s.len() - i {
        return false;
    }
    let mut k: usize = 0;
    while k < pat.len()
        invariant
            i + pat@.len() <= s@.len(),
            s@.len() == s.len(),
            k <= pat@.len(),
            forall|j: int| 0 <= j < k ==> pat@[j] == s@[i + j],
        decreases pat@.len() - k,
    {
        if pat[k] != s[i + k] {
            assert(s@.skip(i as int).subrange(0, pat@.len() as int)[k as int] == s@[i + k]);
            return false;
        }
        k = k + 1;
    }
    assert(pat@ =~= s@.skip(i as int).subrange(0, pat@.len() as int));
    true
}

/// Splits `s` at every occurrence of `sep` (see `split_spec`).
pub fn split_chars(s: &Vec<char>, sep: &Vec<char>) -> (r: Vec<Vec<char>>)
    requires
        sep@.len() > 0,
    ensures
        r@.map_values(|v: Vec<char>| v@) == split_spec(s@, sep@),
{
    let mut done: Vec<Vec<char>> = Vec::new();
    let mut cur: Vec<char> = Vec::new();
    let mut i: usize = 0;
    assert(s@.skip(0) =~= s@);
    proof {
        lemma_split_nonempty(s@, sep@);
        assert(split_spec(s@, sep@).update(0, Seq::<char>::empty() + split_spec(s@, sep@)[0])
            =~= split_spec(s@, sep@));
    }
    while i < s.len()
        invariant
            sep@.len() > 0,
            i <= s@.len(),
            ({
                let r = split_spec(s@.skip(i as int), sep@);
                &&& r.len() >= 1
                &&& done@.map_values(|v: Vec<char>| v@) + r.update(0, cur@ + r[0]) == split_spec(
                    s@,
                    sep@,
                )
            }),
        decreases s@.len() - i,
    {
        let ghost rest = s@.skip(i as int);
        let ghost d0 = done@.map_values(|v: Vec<char>| v@);
        let ghost c0 = cur@;
        if occurs_at(s, i, sep) {
            let mut piece: Vec<char> = Vec::new();
            std::mem::swap(&mut piece, &mut cur);
            done.push(piece);
            proof {
                let r2 = split_spec(rest.skip(sep@.len() as int), sep@);
                lemma_split_nonempty(rest.skip(sep@.len() as int), sep@);
                assert(rest.skip(sep@.len() as int) =~= s@.skip(i + sep@.len()));
                assert(done@.map_values(|v: Vec<char>| v@) =~= d0.push(c0));
                assert(split_spec(rest, sep@) == seq![Seq::<char>::empty()] + r2);
                assert(r2.update(0, Seq::<char>::empty() + r2[0]) =~= r2);
                assert(d0 + (seq![Seq::<char>::empty()] + r2).update(0, c0 + Seq::<char>::empty())
                    =~= d0.push(c0) + r2);
            }
            i = i + sep.len();
        } else {
            let c = s[i];
            cur.push(c);
            proof {
                let r2 = split_spec(rest.skip(1), sep@);
                lemma_split_nonempty(rest.skip(1), sep@);
                assert(rest.skip(1) =~= s@.skip(i + 1));
                assert(rest[0] == c);
                assert(split_spec(rest, sep@) == r2.update(0, seq![c] + r2[0]));
                assert(cur@ =~= c0 + seq![c]);
                assert(c0 + (seq![c] + r2[0]) =~= cur@ + r2[0]);
                assert(r2.update(0, seq![c] + r2[0]).update(0, c0 + (seq![c] + r2[0])) =~= r2.update(
                    0,
                    cur@ + r2[0],
                ));
            }
            i = i + 1;
        }
    }
    proof {
        assert(s@.skip(i as int) =~= Seq::<char>::empty());
        let r = split_spec(s@.skip(i as int), sep@);
        assert(r == seq![Seq::<char>::empty()]);
        assert(r.update(0, cur@ + r[0]) =~= seq![cur@]);
    }
    let ghost d0 = done@.map_values(|v: Vec<char>| v@);
    done.push(cur);
    assert(done@.map_values(|v: Vec<char>| v@) =~= d0 + seq![done@.last()@]);
    done
}

// ---------------------------------------------------------------------------
// Google Translate
// ---------------------------------------------------------------------------

/// Separator put between the texts of one Google request.
pub const GOOGLE_BATCH_SEPARATOR: &'static str = "\n||||\n";

/// All texts of a batch in one request, joined by `GOOGLE_BATCH_SEPARATOR`.
pub fn google_batch_text(texts: &[String]) -> (r: String)
    ensures
        r@ == join_spec(views(texts@), GOOGLE_BATCH_SEPARATOR@),
{
    let mut r = String::new();
    let mut i: usize = 0;
    while i < texts.len()
        invariant
            i <= texts@.len(),
            r@ == join_spec(views(texts@).take(i as int), GOOGLE_BATCH_SEPARATOR@),
        decreases texts@.len() - i,
    {
        proof {
            assert(views(texts@).take(i + 1).drop_last() =~= views(texts@).take(i as int));
            assert(views(texts@).take(i + 1).last() == texts@[i as int]@);
        }
        if i > 0 {
            r.append(GOOGLE_BATCH_SEPARATOR);
        }
        r.append(texts[i].as_str());
        proof {
            if i == 0 {
                assert(views(texts@).take(1) =~= seq![texts@[0]@]);
                assert(r@ =~= texts@[0]@);
            }
        }
        i = i + 1;
    }
    assert(views(texts@).take(i as int) =~= views(texts@));
    r
}

/// The translations read back from a translated batch: the pieces between
/// "||||" markers, trimmed, at most `n` of them.
pub open spec fn google_batch_parts(translated: Seq<char>, n: nat) -> Seq<Seq<char>> {
    let parts = split_spec(translated, "||||"@);
    let kept = if parts.len() > n { parts.take(n as int) } else { parts };
    kept.map_values(|p: Seq<char>| trim_ws(p))
}

/// Whether `pat` occurs nowhere inside `a`.
pub open spec fn free_of(a: Seq<char>, pat: Seq<char>) -> bool {
    forall|i: int| 0 <= i <= a.len() - pat.len() ==> !#[trigger] pat.is_prefix_of(a.skip(i))
}

/// Splitting `a + c` when no occurrence of the separator starts inside `a`:
/// `a` joins the first piece of `c`.
proof fn lemma_split_prefix_free(a: Seq<char>, c: Seq<char>, sep: Seq<char>)
    requires
        sep.len() > 0,
        forall|i: int| 0 <= i < a.len() ==> !#[trigger] sep.is_prefix_of((a + c).skip(i)),
    ensures
        split_spec(a + c, sep) == split_spec(c, sep).update(0, a + split_spec(c, sep)[0]),
    decreases a.len(),
{
    lemma_split_nonempty(c, sep);
    if a.len() == 0 {
        assert(a + c =~= c);
        assert(a + split_spec(c, sep)[0] =~= split_spec(c, sep)[0]);
        assert(split_spec(c, sep).update(0, split_spec(c, sep)[0]) =~= split_spec(c, sep));
    } else {
        let a1 = a.skip(1);
        assert((a + c).skip(1) =~= a1 + c);
        assert forall|i: int| 0 <= i < a1.len() implies !#[trigger] sep.is_prefix_of((a1 + c).skip(i)) by {
            assert((a1 + c).skip(i) =~= (a + c).skip(i + 1));
        }
        lemma_split_prefix_free(a1, c, sep);
        assert((a + c).skip(0) =~= a + c);
        assert(!sep.is_prefix_of(a + c));
        assert((a + c)[0] == a[0]);
        assert(seq![a[0]] + (a1 + split_spec(c, sep)[0]) =~= a + split_spec(c, sep)[0]);
        assert(split_spec(a1 + c, sep).update(0, seq![a[0]] + split_spec(a1 + c, sep)[0]) =~= split_spec(c, sep).update(0, a + split_spec(c, sep)[0]));
    }
}

/// The join of at least two pieces, seen from the front.
proof fn lemma_join_front(parts: Seq<Seq<char>>, sep: Seq<char>)
    requires
        parts.len() >= 2,
    ensures
        join_spec(parts, sep) == parts[0] + sep + join_spec(parts.drop_first(), sep),
    decreases parts.len(),
{
    if parts.len() == 2 {
        assert(parts.drop_first() =~= seq![parts[1]]);
        assert(parts.drop_last() =~= seq![parts[0]]);
        assert(join_spec(parts.drop_last(), sep) == parts[0]);
        assert(join_spec(parts.drop_first(), sep) == parts[1]);
    } else {
        let p = parts.drop_last();
        lemma_join_front(p, sep);
        let q = parts.drop_first();
        assert(p.drop_first() =~= q.drop_last());
        assert(q.last() == parts.last());
        assert(p[0] == parts[0]);
        assert(join_spec(q, sep) == join_spec(q.drop_last(), sep) + sep + q.last());
        assert(join_spec(parts, sep) == join_spec(p, sep) + sep + parts.last());
        assert(join_spec(parts, sep) =~= parts[0] + sep + join_spec(q, sep));
    }
}

/// The pieces that splitting a Google batch at "||||" gives back: each text
/// with the newline that followed it (all but the last) and the newline
/// that preceded it (all but the first, or also the first when `lead`).
pub open spec fn batch_pieces(texts: Seq<Seq<char>>, lead: bool) -> Seq<Seq<char>> {
    Seq::new(
        texts.len(),
        |i: int|
            (if i > 0 || lead {
                seq!['\n']
            } else {
                Seq::empty()
            }) + texts[i] + (if i < texts.len() - 1 {
                seq!['\n']
            } else {
                Seq::empty()
            }),
    )
}

/// No "||||" starts in a text that is preceded by nothing or a newline and
/// followed by the end or a newline, when the text holds none.
proof fn lemma_no_sep_around(x: Seq<char>, pl: int, t: Seq<char>)
    requires
        free_of(t, "||||"@),
        pl == 0 || (pl == 1 && x.len() > 0 && x[0] == '\n'),
        x.len() >= pl + t.len(),
        forall|m: int| 0 <= m < t.len() ==> x[pl + m] == #[trigger] t[m],
        x.len() == pl + t.len() || x[pl + t.len()] == '\n',
    ensures
        forall|i: int|
            0 <= i <= pl + t.len() && i < x.len() ==> !#[trigger] "||||"@.is_prefix_of(x.skip(i)),
{
    reveal_strlit("||||");
    let pat = "||||"@;
    assert(pat =~= seq!['|', '|', '|', '|']);
    assert forall|i: int| 0 <= i <= pl + t.len() && i < x.len() implies !#[trigger] pat.is_prefix_of(
        x.skip(i),
    ) by {
        if pat.is_prefix_of(x.skip(i)) {
            assert forall|m: int| 0 <= m < 4 implies #[trigger] x.skip(i)[m] == '|' by {
                assert(x.skip(i)[m] == pat[m]);
            }
            if pl == 1 && i == 0 {
                assert(x.skip(0)[0] == '|');
            } else if i == pl + t.len() {
                assert(x.skip(i)[0] == '|');
            } else {
                let j = i - pl;
                if j + 4 <= t.len() {
                    assert forall|m: int| 0 <= m < 4 implies t.skip(j)[m] == pat[m] by {
                        assert(x.skip(i)[m] == '|');
                        assert(t[j + m] == x[pl + j + m]);
                    }
                    assert(t.skip(j).subrange(0, 4) =~= pat);
                    assert(pat.is_prefix_of(t.skip(j)));
                } else {
                    let k = t.len() - j;
                    assert(x.skip(i)[k] == '|');
                }
            }
        }
    }
}

proof fn lemma_batch_split(texts: Seq<Seq<char>>, lead: bool)
    requires
        texts.len() >= 1,
        forall|k: int| 0 <= k < texts.len() ==> free_of(#[trigger] texts[k], "||||"@),
    ensures
        split_spec(
            (if lead {
                seq!['\n']
            } else {
                Seq::empty()
            }) + join_spec(texts, GOOGLE_BATCH_SEPARATOR@),
            "||||"@,
        ) == batch_pieces(texts, lead),
    decreases texts.len(),
{
    reveal_strlit("||||");
    reveal_strlit("\n||||\n");
    let pat = "||||"@;
    let sep = GOOGLE_BATCH_SEPARATOR@;
    let pre: Seq<char> = if lead { seq!['\n'] } else { Seq::empty() };
    let t0 = texts[0];
    assert(free_of(t0, pat));
    if texts.len() == 1 {
        assert(join_spec(texts, sep) == t0);
        let a = pre + t0;
        let c = Seq::<char>::empty();
        assert(a + c =~= a);
        lemma_no_sep_around(a, pre.len() as int, t0);
        lemma_split_prefix_free(a, c, pat);
        assert(a + c =~= pre + join_spec(texts, sep));
        assert(split_spec(c, pat) =~= seq![c]);
        assert(split_spec(c, pat).update(0, a + c) =~= batch_pieces(texts, lead));
    } else {
        let rest = texts.drop_first();
        lemma_join_front(texts, sep);
        assert forall|k: int| 0 <= k < rest.len() implies free_of(#[trigger] rest[k], pat) by {
            assert(rest[k] == texts[k + 1]);
        }
        lemma_batch_split(rest, true);
        let tail = seq!['\n'] + join_spec(rest, sep);
        let a = pre + t0 + seq!['\n'];
        let c = pat + tail;
        let x = a + c;
        assert(pre + join_spec(texts, sep) =~= x);
        let pl = pre.len() as int;
        assert(a.len() == pl + t0.len() + 1);
        assert(x[pl + t0.len()] == '\n');
        lemma_no_sep_around(x, pl, t0);
        lemma_split_prefix_free(a, c, pat);
        assert(pat.is_prefix_of(c));
        assert(c.skip(4) =~= tail);
        assert(split_spec(c, pat) =~= seq![Seq::<char>::empty()] + split_spec(tail, pat));
        assert(split_spec(a + c, pat) =~= batch_pieces(texts, lead));
    }
}

/// The Google batch protocol round trip: splitting a joined batch at "||||"
/// gives back, in order and one for each, the texts with their surrounding
/// newlines (which the trimming in `split_google_batch` removes), provided
/// no text contains "||||".
pub proof fn law_google_batch_round_trip(texts: Seq<Seq<char>>)
    requires
        texts.len() >= 1,
        forall|k: int| 0 <= k < texts.len() ==> free_of(#[trigger] texts[k], "||||"@),
    ensures
        split_spec(join_spec(texts, GOOGLE_BATCH_SEPARATOR@), "||||"@) == batch_pieces(texts, false),
        google_batch_parts(join_spec(texts, GOOGLE_BATCH_SEPARATOR@), texts.len()) == batch_pieces(
            texts,
            false,
        ).map_values(|p: Seq<char>| trim_ws(p)),
{
    lemma_batch_split(texts, false);
    assert(Seq::<char>::empty() + join_spec(texts, GOOGLE_BATCH_SEPARATOR@) =~= join_spec(
        texts,
        GOOGLE_BATCH_SEPARATOR@,
    ));
}

/// Splits a translated batch into its translations (see `google_batch_parts`).
/// The caller compares the count with the number of texts sent.
pub fn split_google_batch(translated: &str, n: usize) -> (r: Vec<String>)
    ensures
        views(r@) == google_batch_parts(translated@, n as nat),
{
    proof {
        reveal_strlit("||||");
    }
    let parts = split_chars(&chars_of(translated), &chars_of("||||"));
    let ghost pv = parts@.map_values(|v: Vec<char>| v@);
    let mut r: Vec<String> = Vec::new();
    let mut i: usize = 0;
    while i < parts.len() && i < n
        invariant
            i <= parts@.len(),
            i <= n,
            pv == parts@.map_values(|v: Vec<char>| v@),
            views(r@) == pv.take(i as int).map_values(|p: Seq<char>| trim_ws(p)),
        decreases parts@.len() - i,
    {
        let t = trim_chars(&parts[i]);
        let ghost before = views(r@);
        r.push(string_from_chars(&t));
        proof {
            assert(pv[i as int] == parts@[i as int]@);
            assert(views(r@) =~= before.push(trim_ws(pv[i as int])));
            assert(pv.take(i + 1).map_values(|p: Seq<char>| trim_ws(p)) =~= pv.take(
                i as int,
            ).map_values(|p: Seq<char>| trim_ws(p)).push(trim_ws(pv[i as int])));
        }
        i = i + 1;
    }
    proof {
        if pv.len() > n {
            assert(i == n);
        } else {
            assert(pv.take(i as int) =~= pv);
        }
    }
    r
}

/// The translations of a batch when the reply has a piece for every text
/// sent; `None` when it has fewer (the texts are then sent one by one).
pub fn google_batch_answers(translated: &str, n: usize) -> (r: Option<Vec<String>>)
    ensures
        r is Some <==> split_spec(translated@, "||||"@).len() >= n,
        r matches Some(v) ==> views(v@) == google_batch_parts(translated@, n as nat),
{
    let parts = split_google_batch(translated, n);
    proof {
        let sp = split_spec(translated@, "||||"@);
        assert(views(parts@).len() == parts@.len());
        if sp.len() > n {
            assert(sp.take(n as int).len() == n);
        }
    }
    if parts.len() == n {
        Some(parts)
    } else {
        None
    }
}

/// Percent-encoding as done by `urlencoding::encode`: every byte of the UTF-8
/// encoding is kept when it is an ASCII letter or digit or one of `-_.~`, and
/// written as `%` and two upper-case hex digits otherwise.
pub open spec fn percent_encode(bytes: Seq<u8>) -> Seq<char>
    decreases bytes.len(),
{
    if bytes.len() == 0 {
        Seq::empty()
    } else {
        percent_encode(bytes.drop_last()) + percent_encode_byte(bytes.last())
    }
}

/// Percent-encoding of one byte.
pub open spec fn percent_encode_byte(b: u8) -> Seq<char> {
    if (48 <= b <= 57) || (65 <= b <= 90) || (97 <= b <= 122) || b == 45 || b == 46 || b == 95
        || b == 126 {
        seq![b as char]
    } else {
        seq!['%', hex_digit(b / 16), hex_digit(b % 16)]
    }
}

/// Upper-case hex digit of a value below 16.
pub open spec fn hex_digit(d: u8) -> char {
    if d < 10 {
        (48 + d) as char
    } else {
        (55 + d) as char
    }
}

/// Calls `urlencoding::encode`, which percent-encodes every byte of the UTF-8
/// form except ASCII letters, digits and `-_.~` (see `percent_encode`).
#[verifier::external_body]
fn url_encode(s: &str) -> (r: String)
    ensures
        r@ == percent_encode(encode_utf8(s@)),
{
    urlencoding::encode(s).into_owned()
}

/// Address of the free Google Translate endpoint for one text.
pub open spec fn google_url_spec(source: Seq<char>, target: Seq<char>, text: Seq<char>) -> Seq<
    char,
> {
    "https://translate.googleapis.com/translate_a/single?client=gtx&sl="@ + source + "&tl="@
        + target + "&dt=t&q="@ + percent_encode(encode_utf8(text))
}

/// Builds the Google Translate request address for a text and language pair.
pub fn google_translate_url(source: &str, target: &str, text: &str) -> (r: String)
    ensures
        r@ == google_url_spec(source@, target@, text@),
{
    let mut r = String::from_str(
        "https://translate.googleapis.com/translate_a/single?client=gtx&sl=",
    );
    r.append(source);
    r.append("&tl=");
    r.append(target);
    r.append("&dt=t&q=");
    let q = url_encode(text);
    r.append(q.as_str());
    r
}

} // verus!

verus! {

// ---------------------------------------------------------------------------
// Google reply
// ---------------------------------------------------------------------------

/// A JSON value; a number is kept as text (as serde_json writes it).
#[derive(Debug)]
pub enum JsonValue {
    Null,
    Bool(bool),
    Number(String),
    Str(String),
    Array(Vec<JsonValue>),
    Object(Vec<(String, JsonValue)>),
}

/// Errors of the translation step.
#[derive(Debug, Clone, PartialEq, Eq, Structural)]
pub enum TranslateError {
    /// The reply held no translation.
    NoTranslationInReply,
    /// The reply was not valid JSON.
    InvalidJson,
    /// No OpenAI API key is set.
    MissingApiKey,
}

/// The string that starts a sentence entry `[translation, original, ...]`, or
/// nothing when the entry has another shape.
pub open spec fn sentence_translation(v: JsonValue) -> Seq<char> {
    match v {
        JsonValue::Array(items) => if items@.len() > 0 {
            match items@[0] {
                JsonValue::Str(t) => t@,
                _ => Seq::empty(),
            }
        } else {
            Seq::empty()
        },
        _ => Seq::empty(),
    }
}

/// The translations of the sentence entries, concatenated in order.
pub open spec fn concat_sentences(s: Seq<JsonValue>) -> Seq<char>
    decreases s.len(),
{
    if s.len() == 0 {
        Seq::empty()
    } else {
        concat_sentences(s.drop_last()) + sentence_translation(s.last())
    }
}

/// The text of a Google Translate reply `[[[translation, original, ...], ...], ...]`:
/// the translations of the entries of the first element, concatenated.
pub open spec fn google_reply_text(v: JsonValue) -> Seq<char> {
    match v {
        JsonValue::Array(outer) => if outer@.len() > 0 {
            match outer@[0] {
                JsonValue::Array(sentences) => concat_sentences(sentences@),
                _ => Seq::empty(),
            }
        } else {
            Seq::empty()
        },
        _ => Seq::empty(),
    }
}

/// The translation of a sentence entry.
fn sentence_text(v: &JsonValue) -> (r: Option<&String>)
    ensures
        match r {
            Some(t) => t@ == sentence_translation(*v),
            None => sentence_translation(*v) == Seq::<char>::empty(),
        },
{
    match v {
        JsonValue::Array(items) => {
            if items.len() > 0 {
                match &items[0] {
                    JsonValue::Str(t) => Some(t),
                    _ => None,
                }
            } else {
                None
            }
        },
        _ => None,
    }
}

/// Reads the translated text out of a parsed Google Translate reply. Fails
/// when the reply holds no translated text.
pub fn google_translation_from_json(json: &JsonValue) -> (r: Result<String, TranslateError>)
    ensures
        google_reply_text(*json).len() > 0 ==> (r matches Ok(t) && t@ == google_reply_text(*json)),
        google_reply_text(*json).len() == 0 ==> r == Err::<String, TranslateError>(
            TranslateError::NoTranslationInReply,
        ),
{
    let mut translated = String::new();
    if let JsonValue::Array(outer) = json {
        if outer.len() > 0 {
            if let JsonValue::Array(sentences) = &outer[0] {
                let mut i: usize = 0;
                while i < sentences.len()
                    invariant
                        i <= sentences@.len(),
                        translated@ == concat_sentences(sentences@.take(i as int)),
                    decreases sentences@.len() - i,
                {
                    proof {
                        assert(sentences@.take(i + 1).drop_last() =~= sentences@.take(i as int));
                        assert(sentences@.take(i + 1).last() == sentences@[i as int]);
                    }
                    match sentence_text(&sentences[i]) {
                        Some(t) => translated.append(t.as_str()),
                        None => {
                            assert(translated@ =~= translated@ + Seq::<char>::empty());
                        },
                    }
                    i = i + 1;
                }
                assert(sentences@.take(i as int) =~= sentences@);
            }
        }
    }
    if translated.as_str().is_empty() {
        return Err(TranslateError::NoTranslationInReply);
    }
    Ok(translated)
}

/// The translation in a Google Translate reply, given the reply as parsed
/// JSON (`None` when the reply's text was not JSON): `InvalidJson` for a
/// reply that is not JSON, otherwise what `google_translation_from_json`
/// reads from it.
pub fn google_reply_result(parsed: Option<JsonValue>) -> (r: Result<String, TranslateError>)
    ensures
        parsed is None ==> r == Err::<String, TranslateError>(TranslateError::InvalidJson),
        parsed matches Some(v) ==> if google_reply_text(v).len() > 0 {
            r matches Ok(t) && t@ == google_reply_text(v)
        } else {
            r == Err::<String, TranslateError>(TranslateError::NoTranslationInReply)
        },
{
    match parsed {
        None => Err(TranslateError::InvalidJson),
        Some(v) => google_translation_from_json(&v),
    }
}

/// `serde_json::Value`, carried as an opaque value.
#[verifier::external_type_specification]
#[verifier::external_body]
pub struct ExSerdeJsonValue(serde_json::Value);

/// What `serde_json::from_str::<serde_json::Value>` reads from a text,
/// written as a `JsonValue` (objects with their members in the order the map
/// keeps them, numbers as serde_json writes them), or nothing when the text
/// is not JSON.
pub uninterp spec fn json_value_of(text: Seq<char>) -> Option<JsonValue>;

/// Writes a `serde_json::Value` as a `JsonValue`, one variant for each.
/// Only `json_parse_value` calls it, on the value it has just parsed.
#[verifier::external_body]
fn json_value_from(v: &serde_json::Value) -> JsonValue {
    match v {
        serde_json::Value::Null => JsonValue::Null,
        serde_json::Value::Bool(b) => JsonValue::Bool(*b),
        serde_json::Value::Number(n) => JsonValue::Number(n.to_string()),
        serde_json::Value::String(t) => JsonValue::Str(t.clone()),
        serde_json::Value::Array(a) => JsonValue::Array(a.iter().map(json_value_from).collect()),
        serde_json::Value::Object(o) => JsonValue::Object(
            o.iter().map(|(k, x)| (k.clone(), json_value_from(x))).collect(),
        ),
    }
}

/// Calls `serde_json::from_str::<serde_json::Value>` on a text; the outcome,
/// written as a `JsonValue`, is the one named by `json_value_of`.
#[verifier::external_body]
fn json_parse_value(text: &str) -> (r: Option<JsonValue>)
    ensures
        r == json_value_of(text@),
{
    match serde_json::from_str::<serde_json::Value>(text) {
        Ok(v) => Some(json_value_from(&v)),
        Err(_) => None,
    }
}

/// The translation in the text of a Google Translate reply: `InvalidJson`
/// when the text is not JSON, otherwise what `google_translation_from_json`
/// reads from the parsed reply.
pub fn parse_google_response(response: &str) -> (r: Result<String, TranslateError>)
    ensures
        json_value_of(response@) is None ==> r == Err::<String, TranslateError>(
            TranslateError::InvalidJson,
        ),
        json_value_of(response@) matches Some(v) ==> if google_reply_text(v).len() > 0 {
            r matches Ok(t) && t@ == google_reply_text(v)
        } else {
            r == Err::<String, TranslateError>(TranslateError::NoTranslationInReply)
        },
{
    google_reply_result(json_parse_value(response))
}

} // verus!

verus! {

// ---------------------------------------------------------------------------
// OpenAI
// ---------------------------------------------------------------------------

/// `serde_json::Error`, carried as an opaque value.
#[verifier::external_type_specification]
#[verifier::external_body]
pub struct ExJsonError(serde_json::Error);

/// The lower-case hexadecimal digit of `n` (0 to 15).
pub open spec fn lower_hex_digit(n: int) -> char {
    if n < 10 {
        (('0' as int) + n) as char
    } else {
        (('a' as int) + n - 10) as char
    }
}

/// How a character is written inside a JSON string: quote and backslash
/// after a backslash, the usual short escapes for backspace, tab, line feed,
/// form feed and carriage return, other control characters below 0x20 as
/// `\u00XX` in lower-case hex, and every other character as it is.
pub open spec fn json_escaped_char(c: char) -> Seq<char> {
    let u = c as int;
    if c == '"' {
        seq!['\\', '"']
    } else if c == '\\' {
        seq!['\\', '\\']
    } else if u == 0x8 {
        seq!['\\', 'b']
    } else if u == 0x9 {
        seq!['\\', 't']
    } else if u == 0xA {
        seq!['\\', 'n']
    } else if u == 0xC {
        seq!['\\', 'f']
    } else if u == 0xD {
        seq!['\\', 'r']
    } else if u < 0x20 {
        seq!['\\', 'u', '0', '0', lower_hex_digit(u / 16), lower_hex_digit(u % 16)]
    } else {
        seq![c]
    }
}

/// The characters of `s`, each written as inside a JSON string.
pub open spec fn json_escaped(s: Seq<char>) -> Seq<char>
    decreases s.len(),
{
    if s.len() == 0 {
        Seq::empty()
    } else {
        json_escaped(s.drop_last()) + json_escaped_char(s.last())
    }
}

/// A JSON string literal holding `s`.
pub open spec fn json_string_of(s: Seq<char>) -> Seq<char> {
    seq!['"'] + json_escaped(s) + seq!['"']
}

/// The compact JSON text of an array of strings, as `serde_json::to_string`
/// writes it: the string literals between brackets, separated by commas.
pub open spec fn json_array_of(texts: Seq<Seq<char>>) -> Seq<char> {
    seq!['['] + join_spec(texts.map_values(|t: Seq<char>| json_string_of(t)), seq![',']) + seq![']']
}

/// What `serde_json::from_str::<Vec<String>>` reads from a text: the strings
/// of a JSON array of strings, or nothing when the text is not one.
pub uninterp spec fn json_strings_of(s: Seq<char>) -> Option<Seq<Seq<char>>>;

/// Calls `serde_json::to_string` on a list of strings. It succeeds (it fails
/// only when a `Serialize` impl fails or a map key is not a string, and a
/// slice of `String` does neither), and the text is the compact array
/// described by `json_array_of`.
#[verifier::external_body]
fn json_encode_strings(texts: &[String]) -> (r: Result<String, serde_json::Error>)
    ensures
        r is Ok && r->Ok_0@ == json_array_of(views(texts@)),
{
    serde_json::to_string(texts)
}

/// Calls `serde_json::from_str::<Vec<String>>`; the outcome is the one named
/// by `json_strings_of`.
#[verifier::external_body]
fn json_decode_strings(s: &str) -> (r: Result<Vec<String>, serde_json::Error>)
    ensures
        match r {
            Ok(v) => json_strings_of(s@) == Some(views(v@)),
            Err(_) => json_strings_of(s@) is None,
        },
{
    serde_json::from_str::<Vec<String>>(s)
}

/// Whether an OpenAI request is made for a batch: with no texts there is
/// nothing to send (`Ok(false)`); otherwise an API key is needed
/// (`MissingApiKey` without one) and the request goes out (`Ok(true)`).
pub fn openai_preflight(texts: &[String], api_key: &str) -> (r: Result<bool, TranslateError>)
    ensures
        texts@.len() == 0 ==> r == Ok::<bool, TranslateError>(false),
        texts@.len() > 0 && api_key@.len() == 0 ==> r == Err::<bool, TranslateError>(
            TranslateError::MissingApiKey,
        ),
        texts@.len() > 0 && api_key@.len() > 0 ==> r == Ok::<bool, TranslateError>(true),
{
    if texts.len() == 0 {
        return Ok(false);
    }
    if api_key.is_empty() {
        return Err(TranslateError::MissingApiKey);
    }
    Ok(true)
}

/// Prompt text that comes before the JSON array of texts.
pub const OPENAI_PROMPT_PREFIX: &'static str = "Traduza os seguintes textos. Input:\n";

/// The user message sent to OpenAI: the prompt prefix followed by the texts
/// as a JSON array of strings. It always succeeds.
pub fn openai_user_prompt(texts: &[String]) -> (r: Result<String, TranslateError>)
    ensures
        r matches Ok(p) && p@ == OPENAI_PROMPT_PREFIX@ + json_array_of(views(texts@)),
{
    match json_encode_strings(texts) {
        Ok(json) => {
            let mut p = String::from_str(OPENAI_PROMPT_PREFIX);
            p.append(json.as_str());
            Ok(p)
        },
        Err(_) => Err(TranslateError::InvalidJson),
    }
}

/// `s` with `p` removed from its start as many times as it is there
/// (what `str::trim_start_matches` does for a non-empty pattern).
pub open spec fn strip_prefix_all(s: Seq<char>, p: Seq<char>) -> Seq<char>
    decreases s.len(),
{
    if p.len() > 0 && p.is_prefix_of(s) {
        strip_prefix_all(s.skip(p.len() as int), p)
    } else {
        s
    }
}

/// `s` with `p` removed from its end as many times as it is there
/// (what `str::trim_end_matches` does for a non-empty pattern).
pub open spec fn strip_suffix_all(s: Seq<char>, p: Seq<char>) -> Seq<char>
    decreases s.len(),
{
    if p.len() > 0 && p.is_suffix_of(s) {
        strip_suffix_all(s.take(s.len() - p.len()), p)
    } else {
        s
    }
}

/// A reply without the Markdown code fence the model may wrap it in.
pub open spec fn strip_code_fence_spec(raw: Seq<char>) -> Seq<char> {
    trim_ws(
        strip_suffix_all(
            strip_prefix_all(strip_prefix_all(trim_ws(raw), "```json"@), "```"@),
            "```"@,
        ),
    )
}

/// Removes `p` from the start of `s` as long as it is there.
fn strip_prefix_chars(s: &Vec<char>, p: &Vec<char>) -> (r: Vec<char>)
    requires
        p@.len() > 0,
    ensures
        r@ == strip_prefix_all(s@, p@),
{
    let mut i: usize = 0;
    assert(s@.skip(0) =~= s@);
    while occurs_at(s, i, p)
        invariant
            p@.len() > 0,
            p@.len() == p.len(),
            s@.len() == s.len(),
            i <= s@.len(),
            strip_prefix_all(s@.skip(i as int), p@) == strip_prefix_all(s@, p@),
        decreases s@.len() - i,
    {
        assert(i + p@.len() <= s@.len());
        assert(s@.skip(i as int).skip(p@.len() as int) =~= s@.skip(i + p@.len()));
        i = i + p.len();
    }
    let mut r: Vec<char> = Vec::new();
    let mut k: usize = i;
    while k < s.len()
        invariant
            i <= k <= s@.len(),
            r@ == s@.subrange(i as int, k as int),
        decreases s@.len() - k,
    {
        r.push(s[k]);
        k = k + 1;
        assert(r@ =~= s@.subrange(i as int, k as int));
    }
    assert(r@ =~= s@.skip(i as int));
    r
}

/// Whether `p` ends the first `n` characters of `s`.
fn ends_with_at(s: &Vec<char>, n: usize, p: &Vec<char>) -> (r: bool)
    requires
        n <= s@.len(),
    ensures
        r == p@.is_suffix_of(s@.take(n as int)),
{
    if p.len() > n {
        return false;
    }
    let start = n - p.len();
    let mut k: usize = 0;
    while k < p.len()
        invariant
            start + p@.len() == n,
            n <= s@.len(),
            s@.len() == s.len(),
            k <= p@.len(),
            forall|j: int| 0 <= j < k ==> p@[j] == s@[start + j],
        decreases p@.len() - k,
    {
        if p[k] != s[start + k] {
            assert(s@.take(n as int).subrange(start as int, n as int)[k as int] == s@[start + k]);
            return false;
        }
        k = k + 1;
    }
    assert(p@ =~= s@.take(n as int).subrange(start as int, n as int));
    true
}

/// Removes `p` from the end of `s` as long as it is there.
fn strip_suffix_chars(s: &Vec<char>, p: &Vec<char>) -> (r: Vec<char>)
    requires
        p@.len() > 0,
    ensures
        r@ == strip_suffix_all(s@, p@),
{
    let mut n: usize = s.len();
    assert(s@.take(n as int) =~= s@);
    while ends_with_at(s, n, p)
        invariant
            p@.len() > 0,
            n <= s@.len(),
            strip_suffix_all(s@.take(n as int), p@) == strip_suffix_all(s@, p@),
        decreases n,
    {
        assert(s@.take(n as int).take(n - p@.len()) =~= s@.take(n - p@.len()));
        n = n - p.len();
    }
    let mut r: Vec<char> = Vec::new();
    let mut k: usize = 0;
    while k < n
        invariant
            k <= n <= s@.len(),
            r@ == s@.take(k as int),
        decreases n - k,
    {
        r.push(s[k]);
        k = k + 1;
        assert(r@ =~= s@.take(k as int));
    }
    r
}

/// Removes a Markdown code fence around a model reply (see `strip_code_fence_spec`).
pub fn strip_code_fence(raw: &str) -> (r: Vec<char>)
    ensures
        r@ == strip_code_fence_spec(raw@),
{
    proof {
        reveal_strlit("```json");
        reveal_strlit("```");
    }
    let t = trim_chars(&chars_of(raw));
    let a = strip_prefix_chars(&t, &chars_of("```json"));
    let b = strip_prefix_chars(&a, &chars_of("```"));
    let c = strip_suffix_chars(&b, &chars_of("```"));
    trim_chars(&c)
}

/// The lines of `s` as `str::lines` gives them: split at '\n', a '\r' before
/// the '\n' dropped, and no empty last line after a final '\n'.
pub open spec fn lines_spec(s: Seq<char>) -> Seq<Seq<char>> {
    let parts = split_spec(s, seq!['\n']);
    let ended = parts.drop_last().map_values(|p: Seq<char>| drop_cr(p));
    if parts.last().len() > 0 {
        ended.push(parts.last())
    } else {
        ended
    }
}

/// `p` without one final '\r'.
pub open spec fn drop_cr(p: Seq<char>) -> Seq<char> {
    if p.len() > 0 && p.last() == '\r' {
        p.drop_last()
    } else {
        p
    }
}

/// `s` with every leading and trailing `c` removed (`str::trim_matches` with a char).
pub open spec fn strip_char(s: Seq<char>, c: char) -> Seq<char> {
    strip_suffix_all(strip_prefix_all(s, seq![c]), seq![c])
}

/// A line of a reply that was not a JSON array, cleaned of quotes and commas.
pub open spec fn clean_reply_line(l: Seq<char>) -> Seq<char> {
    strip_char(strip_char(trim_ws(l), '"'), ',')
}

/// Whether a cleaned line is a translation (not empty, not a bracket line).
pub open spec fn is_translation_line(l: Seq<char>) -> bool {
    l.len() > 0 && l[0] != '[' && l[0] != ']'
}

/// The translations read from a reply that is not a JSON array: the whole
/// reply for a single text, otherwise its cleaned non-bracket lines.
pub open spec fn fallback_translations(cleaned: Seq<char>, n: nat) -> Seq<Seq<char>> {
    if n == 1 {
        seq![cleaned]
    } else {
        lines_spec(cleaned).map_values(|l: Seq<char>| clean_reply_line(l)).filter(
            |l: Seq<char>| is_translation_line(l),
        )
    }
}

/// Exactly one translation per text: missing ones are the original texts,
/// extra ones are dropped.
pub open spec fn fit_translations_spec(translated: Seq<Seq<char>>, texts: Seq<Seq<char>>) -> Seq<
    Seq<char>,
> {
    Seq::new(texts.len(), |i: int| if i < translated.len() { translated[i] } else { texts[i] })
}

/// The translations of `texts` read from an OpenAI reply.
pub open spec fn openai_reply_translations(raw: Seq<char>, texts: Seq<Seq<char>>) -> Seq<Seq<char>> {
    let cleaned = strip_code_fence_spec(raw);
    let parsed = match json_strings_of(cleaned) {
        Some(v) => v,
        None => fallback_translations(cleaned, texts.len()),
    };
    fit_translations_spec(parsed, texts)
}

/// Removes every leading and trailing `c`.
fn strip_char_chars(s: &Vec<char>, c: char) -> (r: Vec<char>)
    ensures
        r@ == strip_char(s@, c),
{
    let mut p: Vec<char> = Vec::new();
    p.push(c);
    assert(p@ =~= seq![c]);
    let a = strip_prefix_chars(s, &p);
    strip_suffix_chars(&a, &p)
}

/// The lines of `s` (see `lines_spec`).
pub fn lines_of(s: &Vec<char>) -> (r: Vec<Vec<char>>)
    ensures
        r@.map_values(|v: Vec<char>| v@) == lines_spec(s@),
{
    let mut nl: Vec<char> = Vec::new();
    nl.push('\n');
    assert(nl@ =~= seq!['\n']);
    let parts = split_chars(s, &nl);
    let ghost pv = parts@.map_values(|v: Vec<char>| v@);
    proof {
        lemma_split_nonempty(s@, seq!['\n']);
    }
    let n = parts.len();
    let mut r: Vec<Vec<char>> = Vec::new();
    let mut i: usize = 0;
    while i + 1 < n
        invariant
            n == parts@.len(),
            n >= 1,
            i + 1 <= n,
            pv == parts@.map_values(|v: Vec<char>| v@),
            r@.map_values(|v: Vec<char>| v@) == pv.drop_last().take(i as int).map_values(
                |p: Seq<char>| drop_cr(p),
            ),
        decreases n - i,
    {
        let part = &parts[i];
        let mut line: Vec<char> = Vec::new();
        let m = part.len();
        let keep = if m > 0 && part[m - 1] == '\r' { m - 1 } else { m };
        let mut k: usize = 0;
        while k < keep
            invariant
                keep <= m,
                m == part@.len(),
                k <= keep,
                line@ == part@.take(k as int),
            decreases keep - k,
        {
            line.push(part[k]);
            k = k + 1;
            assert(line@ =~= part@.take(k as int));
        }
        let ghost before = r@.map_values(|v: Vec<char>| v@);
        proof {
            assert(pv[i as int] == part@);
            if m > 0 && part@[m - 1] == '\r' {
                assert(line@ =~= part@.drop_last());
            } else {
                assert(line@ =~= part@);
            }
        }
        r.push(line);
        proof {
            assert(r@.map_values(|v: Vec<char>| v@) =~= before.push(drop_cr(pv[i as int])));
            assert(pv.drop_last().take(i + 1).map_values(|p: Seq<char>| drop_cr(p)) =~= pv.drop_last().take(
                i as int,
            ).map_values(|p: Seq<char>| drop_cr(p)).push(drop_cr(pv[i as int])));
        }
        i = i + 1;
    }
    assert(pv.drop_last().take(i as int) =~= pv.drop_last());
    let last = &parts[n - 1];
    if last.len() > 0 {
        let ghost before = r@.map_values(|v: Vec<char>| v@);
        r.push(last.clone());
        assert(r@.map_values(|v: Vec<char>| v@) =~= before.push(pv.last()));
    }
    r
}

/// The translations read from a reply that is not a JSON array (see
/// `fallback_translations`).
pub fn fallback_reply_translations(cleaned: &Vec<char>, n: usize) -> (r: Vec<String>)
    ensures
        views(r@) == fallback_translations(cleaned@, n as nat),
{
    let mut r: Vec<String> = Vec::new();
    if n == 1 {
        r.push(string_from_chars(cleaned));
        assert(views(r@) =~= seq![cleaned@]);
        return r;
    }
    let lines = lines_of(cleaned);
    let ghost lv = lines@.map_values(|v: Vec<char>| v@);
    let ghost cl = lv.map_values(|l: Seq<char>| clean_reply_line(l));
    let mut i: usize = 0;
    while i < lines.len()
        invariant
            i <= lines@.len(),
            lv == lines@.map_values(|v: Vec<char>| v@),
            cl == lv.map_values(|l: Seq<char>| clean_reply_line(l)),
            views(r@) == cl.take(i as int).filter(|l: Seq<char>| is_translation_line(l)),
        decreases lines@.len() - i,
    {
        let t = trim_chars(&lines[i]);
        let q = strip_char_chars(&t, '"');
        let c = strip_char_chars(&q, ',');
        proof {
            reveal(Seq::filter);
            assert(lv[i as int] == lines@[i as int]@);
            assert(cl[i as int] == c@);
            assert(cl.take(i + 1).drop_last() =~= cl.take(i as int));
            assert(cl.take(i + 1).last() == c@);
        }
        if c.len() > 0 && c[0] != '[' && c[0] != ']' {
            let ghost before = views(r@);
            r.push(string_from_chars(&c));
            assert(views(r@) =~= before.push(c@));
        }
        i = i + 1;
    }
    assert(cl.take(i as int) =~= cl);
    r
}

/// Exactly one translation per text (see `fit_translations_spec`).
pub fn fit_translations(translated: &Vec<String>, texts: &[String]) -> (r: Vec<String>)
    ensures
        views(r@) == fit_translations_spec(views(translated@), views(texts@)),
        r@.len() == texts@.len(),
{
    let mut r: Vec<String> = Vec::new();
    let mut i: usize = 0;
    while i < texts.len()
        invariant
            i <= texts@.len(),
            r@.len() == i,
            views(r@) == fit_translations_spec(views(translated@), views(texts@)).take(i as int),
        decreases texts@.len() - i,
    {
        let s = if i < translated.len() { translated[i].clone() } else { texts[i].clone() };
        let ghost before = views(r@);
        r.push(s);
        assert(views(r@) =~= before.push(s@));
        i = i + 1;
        assert(views(r@) =~= fit_translations_spec(views(translated@), views(texts@)).take(i as int));
    }
    assert(fit_translations_spec(views(translated@), views(texts@)).take(i as int)
        =~= fit_translations_spec(views(translated@), views(texts@)));
    r
}

/// Reads one translation per text from an OpenAI reply (see
/// `openai_reply_translations`).
pub fn openai_translations_from_reply(raw: &str, texts: &[String]) -> (r: Vec<String>)
    ensures
        views(r@) == openai_reply_translations(raw@, views(texts@)),
        r@.len() == texts@.len(),
{
    let cleaned = strip_code_fence(raw);
    let cleaned_text = string_from_chars(&cleaned);
    let parsed = match json_decode_strings(cleaned_text.as_str()) {
        Ok(v) => v,
        Err(_) => fallback_reply_translations(&cleaned, texts.len()),
    };
    fit_translations(&parsed, texts)
}

} // verus!
