//! Cache of translations, so that a text already translated is not sent to a
//! translation service again.
//!
//! The cache maps a key `"provider:source_lang:target_lang:text"` to the
//! translated text. Reading and writing the cache file is left to the caller,
//! which hands the file's text to `load_from_json` and writes what `to_json`
//! returns.

use vstd::prelude::*;
use crate::text::{chars_of, push_char, utf8_byte_len, utf8_len};

verus! {

/// Name of the file the cache is saved to.
pub const CACHE_FILE: &'static str = "translation_cache.json";

/// The cache key of a text for a provider and a language pair.
pub open spec fn cache_key(
    provider: Seq<char>,
    source_lang: Seq<char>,
    target_lang: Seq<char>,
    text: Seq<char>,
) -> Seq<char> {
    provider + seq![':'] + source_lang + seq![':'] + target_lang + seq![':'] + text
}

/// Bytes taken by one cache entry (key and value, UTF-8).
pub open spec fn entry_bytes(k: Seq<char>, v: Seq<char>) -> nat {
    utf8_len(k) + utf8_len(v)
}

/// Total bytes of all keys and values of a finite map.
pub open spec fn map_bytes(m: Map<Seq<char>, Seq<char>>) -> nat
    decreases m.dom().len(),
{
    if m.dom().finite() && m.dom().len() > 0 {
        let k = m.dom().choose();
        proof {
            lemma_choose_in_dom(m);
        }
        entry_bytes(k, m[k]) + map_bytes(m.remove(k))
    } else {
        0
    }
}

/// The map that a list of pairs builds when inserted in order.
pub open spec fn pairs_map(s: Seq<(Seq<char>, Seq<char>)>) -> Map<Seq<char>, Seq<char>>
    decreases s.len(),
{
    if s.len() == 0 {
        Map::empty()
    } else {
        pairs_map(s.drop_last()).insert(s.last().0, s.last().1)
    }
}

/// `m` after inserting every `(original, translated)` pair, in order, under
/// the keys of a provider and language pair.
pub open spec fn insert_pairs(
    m: Map<Seq<char>, Seq<char>>,
    provider: Seq<char>,
    source_lang: Seq<char>,
    target_lang: Seq<char>,
    pairs: Seq<(Seq<char>, Seq<char>)>,
) -> Map<Seq<char>, Seq<char>>
    decreases pairs.len(),
{
    if pairs.len() == 0 {
        m
    } else {
        insert_pairs(m, provider, source_lang, target_lang, pairs.drop_last()).insert(
            cache_key(provider, source_lang, target_lang, pairs.last().0),
            pairs.last().1,
        )
    }
}

/// The `(index, translation)` of every text whose key is in `m`, in order.
pub open spec fn batch_found(
    m: Map<Seq<char>, Seq<char>>,
    provider: Seq<char>,
    source_lang: Seq<char>,
    target_lang: Seq<char>,
    texts: Seq<Seq<char>>,
) -> Seq<(int, Seq<char>)>
    decreases texts.len(),
{
    if texts.len() == 0 {
        Seq::empty()
    } else {
        let prev = batch_found(m, provider, source_lang, target_lang, texts.drop_last());
        let k = cache_key(provider, source_lang, target_lang, texts.last());
        if m.contains_key(k) {
            prev.push((texts.len() - 1, m[k]))
        } else {
            prev
        }
    }
}

/// The `(index, text)` of every text whose key is not in `m`, in order.
pub open spec fn batch_missing(
    m: Map<Seq<char>, Seq<char>>,
    provider: Seq<char>,
    source_lang: Seq<char>,
    target_lang: Seq<char>,
    texts: Seq<Seq<char>>,
) -> Seq<(int, Seq<char>)>
    decreases texts.len(),
{
    if texts.len() == 0 {
        Seq::empty()
    } else {
        let prev = batch_missing(m, provider, source_lang, target_lang, texts.drop_last());
        let k = cache_key(provider, source_lang, target_lang, texts.last());
        if m.contains_key(k) {
            prev
        } else {
            prev.push((texts.len() - 1, texts.last()))
        }
    }
}

/// Views of a list of string pairs.
pub open spec fn pair_views(s: Seq<(String, String)>) -> Seq<(Seq<char>, Seq<char>)> {
    s.map_values(|p: (String, String)| (p.0@, p.1@))
}

/// Views of a list of indexed strings.
pub open spec fn indexed_views(s: Seq<(usize, String)>) -> Seq<(int, Seq<char>)> {
    s.map_values(|p: (usize, String)| (p.0 as int, p.1@))
}

/// Views of a list of strings.
pub open spec fn string_views(s: Seq<String>) -> Seq<Seq<char>> {
    s.map_values(|t: String| t@)
}

/// Whether no two pairs share a key.
pub open spec fn keys_distinct(s: Seq<(Seq<char>, Seq<char>)>) -> bool {
    forall|i: int, j: int| 0 <= i < s.len() && 0 <= j < s.len() && i != j ==> s[i].0 != s[j].0
}

/// Sum of the entry bytes of a list of pairs.
pub open spec fn pairs_bytes(s: Seq<(Seq<char>, Seq<char>)>) -> nat
    decreases s.len(),
{
    if s.len() == 0 {
        0
    } else {
        pairs_bytes(s.drop_last()) + entry_bytes(s.last().0, s.last().1)
    }
}

// ---------------------------------------------------------------------------
// Lemmas
// ---------------------------------------------------------------------------

/// A non-empty finite map holds the key `choose` picks, and is smaller without it.
pub proof fn lemma_choose_in_dom(m: Map<Seq<char>, Seq<char>>)
    requires
        m.dom().finite(),
        m.dom().len() > 0,
    ensures
        m.dom().contains(m.dom().choose()),
        m.remove(m.dom().choose()).dom().len() < m.dom().len(),
{
    vstd::set_lib::lemma_set_empty_equivalency_len(m.dom());
    assert(m.dom() != Set::<Seq<char>>::empty());
    let a = choose|a: Seq<char>| m.dom().contains(a);
    assert(m.dom().contains(a));
    assert(m.remove(m.dom().choose()).dom() =~= m.dom().remove(m.dom().choose()));
}

/// The byte total can be split at any key.
proof fn lemma_map_bytes_remove(m: Map<Seq<char>, Seq<char>>, k: Seq<char>)
    requires
        m.dom().finite(),
        m.dom().contains(k),
    ensures
        map_bytes(m) == entry_bytes(k, m[k]) + map_bytes(m.remove(k)),
    decreases m.dom().len(),
{
    assert(m.dom().len() > 0) by {
        if m.dom().len() == 0 {
            vstd::set_lib::lemma_set_empty_equivalency_len(m.dom());
        }
    }
    lemma_choose_in_dom(m);
    let c = m.dom().choose();
    if c != k {
        let mc = m.remove(c);
        let mk = m.remove(k);
        assert(mc.dom() =~= m.dom().remove(c));
        assert(mk.dom() =~= m.dom().remove(k));
        assert(mc.dom().contains(k));
        assert(mk.dom().contains(c));
        lemma_map_bytes_remove(mc, k);
        lemma_map_bytes_remove(mk, c);
        assert(mc.remove(k) =~= mk.remove(c));
    }
}

proof fn lemma_map_bytes_insert(m: Map<Seq<char>, Seq<char>>, k: Seq<char>, v: Seq<char>)
    requires
        m.dom().finite(),
    ensures
        m.dom().contains(k) ==> map_bytes(m.insert(k, v)) + entry_bytes(k, m[k]) == map_bytes(m)
            + entry_bytes(k, v),
        !m.dom().contains(k) ==> map_bytes(m.insert(k, v)) == map_bytes(m) + entry_bytes(k, v),
{
    let mi = m.insert(k, v);
    lemma_map_bytes_remove(mi, k);
    if m.dom().contains(k) {
        lemma_map_bytes_remove(m, k);
        assert(mi.remove(k) =~= m.remove(k));
    } else {
        assert(mi.remove(k) =~= m);
    }
}

proof fn lemma_pairs_map_facts(s: Seq<(Seq<char>, Seq<char>)>)
    requires
        keys_distinct(s),
    ensures
        pairs_map(s).dom().finite(),
        pairs_map(s).dom().len() == s.len(),
        map_bytes(pairs_map(s)) == pairs_bytes(s),
        forall|k: Seq<char>| #[trigger] pairs_map(s).contains_key(k) <==> exists|i: int|
            0 <= i < s.len() && s[i].0 == k,
    decreases s.len(),
{
    if s.len() > 0 {
        let p = s.drop_last();
        assert(keys_distinct(p));
        lemma_pairs_map_facts(p);
        let k = s.last().0;
        assert(!pairs_map(p).contains_key(k)) by {
            if pairs_map(p).contains_key(k) {
                let i = choose|i: int| 0 <= i < p.len() && p[i].0 == k;
                assert(s[i].0 == s[s.len() - 1].0);
            }
        }
        lemma_map_bytes_insert(pairs_map(p), k, s.last().1);
        assert forall|k2: Seq<char>| #[trigger] pairs_map(s).contains_key(k2) implies exists|i: int|
            0 <= i < s.len() && s[i].0 == k2 by {
            if k2 == k {
                assert(s[s.len() - 1].0 == k2);
            } else {
                let i = choose|i: int| 0 <= i < p.len() && p[i].0 == k2;
                assert(s[i].0 == k2);
            }
        }
        assert forall|k2: Seq<char>|
            (exists|i: int| 0 <= i < s.len() && s[i].0 == k2) implies #[trigger] pairs_map(
            s,
        ).contains_key(k2) by {
            let i = choose|i: int| 0 <= i < s.len() && s[i].0 == k2;
            if i < s.len() - 1 {
                assert(p[i].0 == k2);
            }
        }
    }
}

proof fn lemma_pairs_map_lookup(s: Seq<(Seq<char>, Seq<char>)>, i: int)
    requires
        keys_distinct(s),
        0 <= i < s.len(),
    ensures
        pairs_map(s).contains_key(s[i].0),
        pairs_map(s)[s[i].0] == s[i].1,
    decreases s.len(),
{
    if i < s.len() - 1 {
        let p = s.drop_last();
        assert(keys_distinct(p));
        assert(p[i] == s[i]);
        lemma_pairs_map_lookup(p, i);
    }
}

proof fn lemma_pairs_map_absent(s: Seq<(Seq<char>, Seq<char>)>, k: Seq<char>)
    requires
        forall|i: int| 0 <= i < s.len() ==> s[i].0 != k,
    ensures
        !pairs_map(s).contains_key(k),
    decreases s.len(),
{
    if s.len() > 0 {
        let p = s.drop_last();
        assert forall|i: int| 0 <= i < p.len() implies p[i].0 != k by {
            assert(p[i] == s[i]);
        }
        lemma_pairs_map_absent(p, k);
    }
}

proof fn lemma_pairs_map_update(s: Seq<(Seq<char>, Seq<char>)>, i: int, v: Seq<char>)
    requires
        keys_distinct(s),
        0 <= i < s.len(),
    ensures
        pairs_map(s.update(i, (s[i].0, v))) == pairs_map(s).insert(s[i].0, v),
    decreases s.len(),
{
    let k = s[i].0;
    let u = s.update(i, (k, v));
    let p = s.drop_last();
    if i == s.len() - 1 {
        assert(u.drop_last() =~= p);
        assert(pairs_map(u) =~= pairs_map(s).insert(k, v));
    } else {
        assert(keys_distinct(p));
        assert(p[i] == s[i]);
        lemma_pairs_map_update(p, i, v);
        assert(u.drop_last() =~= p.update(i, (k, v)));
        assert(s.last().0 != k);
        assert(pairs_map(u) =~= pairs_map(s).insert(k, v));
    }
}

proof fn lemma_pairs_bytes_prefix(s: Seq<(Seq<char>, Seq<char>)>, i: int)
    requires
        0 <= i <= s.len(),
    ensures
        pairs_bytes(s.take(i)) <= pairs_bytes(s),
    decreases s.len() - i,
{
    if i < s.len() {
        lemma_pairs_bytes_prefix(s, i + 1);
        assert(s.take(i + 1).drop_last() =~= s.take(i));
    } else {
        assert(s.take(i) =~= s);
    }
}

// ---------------------------------------------------------------------------
// Laws
// ---------------------------------------------------------------------------

/// A lookup right after `set` gives back the translation that was stored.
pub proof fn law_get_after_set(
    m: Map<Seq<char>, Seq<char>>,
    provider: Seq<char>,
    source_lang: Seq<char>,
    target_lang: Seq<char>,
    original: Seq<char>,
    translated: Seq<char>,
)
    ensures
        ({
            let k = cache_key(provider, source_lang, target_lang, original);
            let m2 = m.insert(k, translated);
            m2.contains_key(k) && m2[k] == translated
        }),
{
}

/// `set` leaves the translation of every other key as it was.
pub proof fn law_set_keeps_other_keys(
    m: Map<Seq<char>, Seq<char>>,
    k: Seq<char>,
    translated: Seq<char>,
    other: Seq<char>,
)
    requires
        other != k,
    ensures
        m.insert(k, translated).contains_key(other) == m.contains_key(other),
        m.contains_key(other) ==> m.insert(k, translated)[other] == m[other],
{
}

/// `get_batch` splits the texts: every index lands in exactly one of the two
/// lists, found ones with their cached translation, missing ones with their text.
pub proof fn law_batch_partition(
    m: Map<Seq<char>, Seq<char>>,
    provider: Seq<char>,
    source_lang: Seq<char>,
    target_lang: Seq<char>,
    texts: Seq<Seq<char>>,
)
    ensures
        ({
            let f = batch_found(m, provider, source_lang, target_lang, texts);
            let g = batch_missing(m, provider, source_lang, target_lang, texts);
            &&& f.len() + g.len() == texts.len()
            &&& forall|j: int| 0 <= j < f.len() ==> {
                let i = #[trigger] f[j].0;
                &&& 0 <= i < texts.len()
                &&& m.contains_key(cache_key(provider, source_lang, target_lang, texts[i]))
                &&& f[j].1 == m[cache_key(provider, source_lang, target_lang, texts[i])]
            }
            &&& forall|j: int| 0 <= j < g.len() ==> {
                let i = #[trigger] g[j].0;
                &&& 0 <= i < texts.len()
                &&& !m.contains_key(cache_key(provider, source_lang, target_lang, texts[i]))
                &&& g[j].1 == texts[i]
            }
        }),
    decreases texts.len(),
{
    if texts.len() > 0 {
        let p = texts.drop_last();
        law_batch_partition(m, provider, source_lang, target_lang, p);
        let f = batch_found(m, provider, source_lang, target_lang, texts);
        let g = batch_missing(m, provider, source_lang, target_lang, texts);
        let fp = batch_found(m, provider, source_lang, target_lang, p);
        let gp = batch_missing(m, provider, source_lang, target_lang, p);
        assert forall|j: int| 0 <= j < f.len() implies {
            let i = #[trigger] f[j].0;
            &&& 0 <= i < texts.len()
            &&& m.contains_key(cache_key(provider, source_lang, target_lang, texts[i]))
            &&& f[j].1 == m[cache_key(provider, source_lang, target_lang, texts[i])]
        } by {
            if j < fp.len() {
                assert(f[j] == fp[j]);
                assert(texts[fp[j].0] == p[fp[j].0]);
            }
        }
        assert forall|j: int| 0 <= j < g.len() implies {
            let i = #[trigger] g[j].0;
            &&& 0 <= i < texts.len()
            &&& !m.contains_key(cache_key(provider, source_lang, target_lang, texts[i]))
            &&& g[j].1 == texts[i]
        } by {
            if j < gp.len() {
                assert(g[j] == gp[j]);
                assert(texts[gp[j].0] == p[gp[j].0]);
            }
        }
    }
}

/// After `set_batch`, the text of every pair is cached, with the translation
/// of the last pair that has that text.
pub proof fn law_set_batch_then_found(
    m: Map<Seq<char>, Seq<char>>,
    provider: Seq<char>,
    source_lang: Seq<char>,
    target_lang: Seq<char>,
    pairs: Seq<(Seq<char>, Seq<char>)>,
    i: int,
)
    requires
        0 <= i < pairs.len(),
        forall|j: int| i < j < pairs.len() ==> #[trigger] pairs[j].0 != pairs[i].0,
    ensures
        ({
            let m2 = insert_pairs(m, provider, source_lang, target_lang, pairs);
            let k = cache_key(provider, source_lang, target_lang, pairs[i].0);
            m2.contains_key(k) && m2[k] == pairs[i].1
        }),
    decreases pairs.len(),
{
    if i < pairs.len() - 1 {
        let p = pairs.drop_last();
        assert forall|j: int| i < j < p.len() implies #[trigger] p[j].0 != p[i].0 by {
            assert(p[j] == pairs[j]);
        }
        law_set_batch_then_found(m, provider, source_lang, target_lang, p, i);
        assert(pairs.last().0 != pairs[i].0);
        assert(p[i] == pairs[i]);
        // different texts give different keys: the texts end the keys
        let kl = cache_key(provider, source_lang, target_lang, pairs.last().0);
        let ki = cache_key(provider, source_lang, target_lang, pairs[i].0);
        assert(kl != ki) by {
            let pre = provider + seq![':'] + source_lang + seq![':'] + target_lang + seq![':'];
            assert(kl == pre + pairs.last().0);
            assert(ki == pre + pairs[i].0);
            if kl == ki {
                assert(pairs.last().0 =~= kl.skip(pre.len() as int));
                assert(pairs[i].0 =~= ki.skip(pre.len() as int));
            }
        }
    }
}

/// `m` after `set` is called for each pair in turn, first pair first.
pub open spec fn set_each(
    m: Map<Seq<char>, Seq<char>>,
    provider: Seq<char>,
    source_lang: Seq<char>,
    target_lang: Seq<char>,
    pairs: Seq<(Seq<char>, Seq<char>)>,
) -> Map<Seq<char>, Seq<char>>
    decreases pairs.len(),
{
    if pairs.len() == 0 {
        m
    } else {
        set_each(
            m.insert(cache_key(provider, source_lang, target_lang, pairs[0].0), pairs[0].1),
            provider,
            source_lang,
            target_lang,
            pairs.drop_first(),
        )
    }
}

proof fn lemma_insert_pairs_first(
    m: Map<Seq<char>, Seq<char>>,
    provider: Seq<char>,
    source_lang: Seq<char>,
    target_lang: Seq<char>,
    pairs: Seq<(Seq<char>, Seq<char>)>,
)
    requires
        pairs.len() > 0,
    ensures
        insert_pairs(m, provider, source_lang, target_lang, pairs) == insert_pairs(
            m.insert(cache_key(provider, source_lang, target_lang, pairs[0].0), pairs[0].1),
            provider,
            source_lang,
            target_lang,
            pairs.drop_first(),
        ),
    decreases pairs.len(),
{
    let m1 = m.insert(cache_key(provider, source_lang, target_lang, pairs[0].0), pairs[0].1);
    if pairs.len() == 1 {
        assert(pairs.drop_last().len() == 0);
        assert(pairs.drop_first().len() == 0);
        assert(insert_pairs(m, provider, source_lang, target_lang, pairs.drop_last()) == m);
        assert(pairs.last() == pairs[0]);
        assert(insert_pairs(m1, provider, source_lang, target_lang, pairs.drop_first()) == m1);
    } else {
        let p = pairs.drop_last();
        lemma_insert_pairs_first(m, provider, source_lang, target_lang, p);
        assert(p[0] == pairs[0]);
        let q = pairs.drop_first();
        assert(q.drop_last() =~= p.drop_first());
        assert(q.last() == pairs.last());
        assert(insert_pairs(m1, provider, source_lang, target_lang, q) == insert_pairs(
            m1, provider, source_lang, target_lang, q.drop_last()).insert(
            cache_key(provider, source_lang, target_lang, q.last().0), q.last().1));
    }
}

/// `set_batch` does what calling `set` for each pair in order does: a later
/// pair with the same text wins over an earlier one.
pub proof fn law_set_batch_is_sets_in_order(
    m: Map<Seq<char>, Seq<char>>,
    provider: Seq<char>,
    source_lang: Seq<char>,
    target_lang: Seq<char>,
    pairs: Seq<(Seq<char>, Seq<char>)>,
)
    ensures
        insert_pairs(m, provider, source_lang, target_lang, pairs) == set_each(
            m,
            provider,
            source_lang,
            target_lang,
            pairs,
        ),
    decreases pairs.len(),
{
    if pairs.len() > 0 {
        lemma_insert_pairs_first(m, provider, source_lang, target_lang, pairs);
        law_set_batch_is_sets_in_order(
            m.insert(cache_key(provider, source_lang, target_lang, pairs[0].0), pairs[0].1),
            provider,
            source_lang,
            target_lang,
            pairs.drop_first(),
        );
    }
}

/// `set_batch` leaves every key that none of its pairs has as it was.
pub proof fn law_set_batch_keeps_other_keys(
    m: Map<Seq<char>, Seq<char>>,
    provider: Seq<char>,
    source_lang: Seq<char>,
    target_lang: Seq<char>,
    pairs: Seq<(Seq<char>, Seq<char>)>,
    k: Seq<char>,
)
    requires
        forall|i: int| 0 <= i < pairs.len() ==> cache_key(provider, source_lang, target_lang, #[trigger] pairs[i].0) != k,
    ensures
        insert_pairs(m, provider, source_lang, target_lang, pairs).contains_key(k) == m.contains_key(k),
        m.contains_key(k) ==> insert_pairs(m, provider, source_lang, target_lang, pairs)[k] == m[k],
    decreases pairs.len(),
{
    if pairs.len() > 0 {
        let p = pairs.drop_last();
        assert forall|i: int| 0 <= i < p.len() implies cache_key(provider, source_lang, target_lang, #[trigger] p[i].0) != k by {
            assert(p[i] == pairs[i]);
        }
        law_set_batch_keeps_other_keys(m, provider, source_lang, target_lang, p, k);
        assert(cache_key(provider, source_lang, target_lang, pairs[pairs.len() - 1].0) != k);
    }
}

/// How `set` changes the byte total: the old entry's bytes (if the key was
/// there) are replaced by the new entry's.
pub proof fn law_stored_bytes_after_set(
    m: Map<Seq<char>, Seq<char>>,
    k: Seq<char>,
    v: Seq<char>,
)
    requires
        m.dom().finite(),
    ensures
        m.dom().contains(k) ==> map_bytes(m.insert(k, v)) + entry_bytes(k, m[k]) == map_bytes(m)
            + entry_bytes(k, v),
        !m.dom().contains(k) ==> map_bytes(m.insert(k, v)) == map_bytes(m) + entry_bytes(k, v),
        !m.dom().contains(k) ==> m.insert(k, v).dom().len() == m.dom().len() + 1,
{
    lemma_map_bytes_insert(m, k, v);
}

// ---------------------------------------------------------------------------
// The cache file's JSON
// ---------------------------------------------------------------------------

/// What `serde_json::from_str::<HashMap<String, String>>` reads from a text:
/// the map of a JSON object whose values are all strings, or nothing when the
/// text is not one.
pub uninterp spec fn json_object_of(s: Seq<char>) -> Option<Map<Seq<char>, Seq<char>>>;

/// Calls `serde_json::from_str::<HashMap<String, String>>` and lists the
/// entries of the map it reads (in the map's own order, each key once). The
/// outcome is the one named by `json_object_of`.
#[verifier::external_body]
fn json_decode_object(s: &str) -> (r: Result<Vec<(String, String)>, serde_json::Error>)
    ensures
        match r {
            Ok(v) => json_object_of(s@) == Some(pairs_map(pair_views(v@))) && keys_distinct(
                pair_views(v@),
            ),
            Err(_) => json_object_of(s@) is None,
        },
{
    serde_json::from_str::<std::collections::HashMap<String, String>>(s).map(|m| m.into_iter().collect())
}

/// Calls `serde_json::to_string_pretty` on the map of the given pairs (each
/// key once). It succeeds (the keys are strings and the values serialise
/// without fail), and reading the text back gives the same map; the order of
/// the entries in the text is the map's own and is not stated.
#[verifier::external_body]
fn json_encode_object(pairs: &[(String, String)]) -> (r: Result<String, serde_json::Error>)
    requires
        keys_distinct(pair_views(pairs@)),
    ensures
        r is Ok && json_object_of(r->Ok_0@) == Some(pairs_map(pair_views(pairs@))),
{
    let m: std::collections::HashMap<&String, &String> = pairs.iter().map(|p| (&p.0, &p.1)).collect();
    serde_json::to_string_pretty(&m)
}

// ---------------------------------------------------------------------------
// The cache
// ---------------------------------------------------------------------------

/// Translations already obtained, keyed by provider, languages and text.
pub struct TranslationCache {
    entries: Vec<(String, String)>,
    cache_file: String,
    persist_to_disk: bool,
}

impl View for TranslationCache {
    type V = Map<Seq<char>, Seq<char>>;

    closed spec fn view(&self) -> Map<Seq<char>, Seq<char>> {
        pairs_map(pair_views(self.entries@))
    }
}

/// Builds the key `"provider:source_lang:target_lang:text"`.
fn make_key(provider: &str, source_lang: &str, target_lang: &str, text: &str) -> (k: String)
    ensures
        k@ == cache_key(provider@, source_lang@, target_lang@, text@),
{
    let mut k = String::new();
    k.append(provider);
    push_char(&mut k, ':');
    k.append(source_lang);
    push_char(&mut k, ':');
    k.append(target_lang);
    push_char(&mut k, ':');
    k.append(text);
    k
}

impl TranslationCache {
    #[verifier::type_invariant]
    spec fn distinct_keys(self) -> bool {
        &&& keys_distinct(pair_views(self.entries@))
        &&& self.cache_file@ == CACHE_FILE@
    }

    /// Whether the cache is meant to be saved to disk.
    pub closed spec fn persists(self) -> bool {
        self.persist_to_disk
    }

    /// Total bytes of the keys and values stored.
    pub open spec fn stored_bytes(self) -> nat {
        map_bytes(self@)
    }

    proof fn lemma_finite(&self)
        requires
            self.distinct_keys(),
        ensures
            self@.dom().finite(),
            self.stored_bytes() == pairs_bytes(pair_views(self.entries@)),
            self@.dom().len() == self.entries@.len(),
    {
        lemma_pairs_map_facts(pair_views(self.entries@));
    }

    /// Creates an empty cache. When `persist_to_disk` is set, the caller loads
    /// the saved file with `load_from_json` and saves `to_json` again later.
    pub fn new(persist_to_disk: bool) -> (c: Self)
        ensures
            c@ == Map::<Seq<char>, Seq<char>>::empty(),
            c.persists() == persist_to_disk,
    {
        let c = TranslationCache {
            entries: Vec::new(),
            cache_file: String::from_str(CACHE_FILE),
            persist_to_disk,
        };
        proof {
            assert(pair_views(c.entries@) =~= Seq::<(Seq<char>, Seq<char>)>::empty());
        }
        c
    }

    /// Index of the entry with key `key`, if any.
    fn find(&self, key: &String) -> (r: Option<usize>)
        ensures
            match r {
                Some(i) => i < self.entries@.len() && self.entries@[i as int].0@ == key@,
                None => forall|i: int|
                    0 <= i < self.entries@.len() ==> self.entries@[i].0@ != key@,
            },
    {
        let mut i: usize = 0;
        while i < self.entries.len()
            invariant
                i <= self.entries@.len(),
                forall|j: int| 0 <= j < i ==> self.entries@[j].0@ != key@,
            decreases self.entries@.len() - i,
        {
            if self.entries[i].0 == *key {
                return Some(i);
            }
            i = i + 1;
        }
        None
    }

    /// Looks up `key` in the map model.
    fn lookup(&self, key: &String) -> (r: Option<String>)
        ensures
            match r {
                Some(t) => self@.contains_key(key@) && self@[key@] == t@,
                None => !self@.contains_key(key@),
            },
    {
        proof {
            use_type_invariant(self);
        }
        let ghost pv = pair_views(self.entries@);
        match self.find(key) {
            Some(i) => {
                proof {
                    assert(pv[i as int] == (self.entries@[i as int].0@, self.entries@[i as int].1@));
                    lemma_pairs_map_lookup(pv, i as int);
                }
                Some(self.entries[i].1.clone())
            },
            None => {
                proof {
                    assert forall|j: int| 0 <= j < pv.len() implies pv[j].0 != key@ by {
                        assert(pv[j].0 == self.entries@[j].0@);
                    }
                    lemma_pairs_map_absent(pv, key@);
                }
                None
            },
        }
    }

    /// Stores `value` under `key`, replacing any previous value.
    fn store(&mut self, key: String, value: String)
        ensures
            final(self)@ == old(self)@.insert(key@, value@),
            final(self).persists() == old(self).persists(),
    {
        proof {
            use_type_invariant(&*self);
        }
        let ghost pv = pair_views(self.entries@);
        let found = self.find(&key);
        let mut entries: Vec<(String, String)> = Vec::new();
        std::mem::swap(&mut entries, &mut self.entries);
        match found {
            Some(i) => {
                let ghost k = key@;
                entries.set(i, (key, value));
                proof {
                    assert(pv[i as int].0 == k);
                    lemma_pairs_map_update(pv, i as int, value@);
                    assert(pair_views(entries@) =~= pv.update(i as int, (pv[i as int].0, value@)));
                }
            },
            None => {
                let ghost k = key@;
                entries.push((key, value));
                proof {
                    let nv = pv.push((k, value@));
                    assert(pair_views(entries@) =~= nv);
                    assert forall|j: int| 0 <= j < pv.len() implies pv[j].0 != k by {
                        assert(pv[j].0 == old(self).entries@[j].0@);
                    }
                    assert forall|a: int, b: int|
                        0 <= a < nv.len() && 0 <= b < nv.len() && a != b implies nv[a].0
                        != nv[b].0 by {
                        if a < pv.len() && b < pv.len() {
                            assert(nv[a] == pv[a] && nv[b] == pv[b]);
                        }
                    }
                    assert(nv.drop_last() =~= pv);
                }
            },
        }
        self.entries = entries;
    }

    /// The cached translation of `text`, if any.
    pub fn get(&self, provider: &str, source_lang: &str, target_lang: &str, text: &str) -> (r:
        Option<String>)
        ensures
            ({
                let k = cache_key(provider@, source_lang@, target_lang@, text@);
                match r {
                    Some(t) => self@.contains_key(k) && t@ == self@[k],
                    None => !self@.contains_key(k),
                }
            }),
    {
        let key = make_key(provider, source_lang, target_lang, text);
        self.lookup(&key)
    }

    /// Caches `translated` as the translation of `original`.
    pub fn set(
        &mut self,
        provider: &str,
        source_lang: &str,
        target_lang: &str,
        original: &str,
        translated: &str,
    )
        ensures
            final(self)@ == old(self)@.insert(
                cache_key(provider@, source_lang@, target_lang@, original@),
                translated@,
            ),
            final(self).persists() == old(self).persists(),
    {
        let key = make_key(provider, source_lang, target_lang, original);
        self.store(key, String::from_str(translated));
    }

    /// Looks up many texts at once. Returns the `(index, translation)` of the
    /// texts found and the `(index, text)` of those not found, each in order.
    pub fn get_batch(
        &self,
        provider: &str,
        source_lang: &str,
        target_lang: &str,
        texts: &[String],
    ) -> (r: (Vec<(usize, String)>, Vec<(usize, String)>))
        ensures
            indexed_views(r.0@) == batch_found(
                self@,
                provider@,
                source_lang@,
                target_lang@,
                string_views(texts@),
            ),
            indexed_views(r.1@) == batch_missing(
                self@,
                provider@,
                source_lang@,
                target_lang@,
                string_views(texts@),
            ),
    {
        let mut found: Vec<(usize, String)> = Vec::new();
        let mut not_found: Vec<(usize, String)> = Vec::new();
        let ghost tv = string_views(texts@);
        let mut i: usize = 0;
        while i < texts.len()
            invariant
                i <= texts@.len(),
                tv == string_views(texts@),
                indexed_views(found@) == batch_found(
                    self@,
                    provider@,
                    source_lang@,
                    target_lang@,
                    tv.take(i as int),
                ),
                indexed_views(not_found@) == batch_missing(
                    self@,
                    provider@,
                    source_lang@,
                    target_lang@,
                    tv.take(i as int),
                ),
            decreases texts@.len() - i,
        {
            let text = &texts[i];
            let key = make_key(provider, source_lang, target_lang, text.as_str());
            proof {
                let t = tv.take(i + 1);
                assert(t.drop_last() =~= tv.take(i as int));
                assert(t.last() == text@);
                assert(t.len() - 1 == i);
            }
            match self.lookup(&key) {
                Some(translated) => {
                    found.push((i, translated));
                    assert(indexed_views(found@) =~= indexed_views(found@).drop_last().push(
                        (i as int, self@[key@]),
                    ));
                },
                None => {
                    not_found.push((i, text.clone()));
                    assert(indexed_views(not_found@) =~= indexed_views(not_found@).drop_last().push(
                        (i as int, text@),
                    ));
                },
            }
            i = i + 1;
        }
        assert(tv.take(texts@.len() as int) =~= tv);
        (found, not_found)
    }

    /// Caches many `(original, translated)` pairs, in order.
    pub fn set_batch(
        &mut self,
        provider: &str,
        source_lang: &str,
        target_lang: &str,
        pairs: &[(String, String)],
    )
        ensures
            final(self)@ == insert_pairs(
                old(self)@,
                provider@,
                source_lang@,
                target_lang@,
                pair_views(pairs@),
            ),
            final(self).persists() == old(self).persists(),
    {
        let ghost pv = pair_views(pairs@);
        let mut i: usize = 0;
        while i < pairs.len()
            invariant
                i <= pairs@.len(),
                pv == pair_views(pairs@),
                self@ == insert_pairs(
                    old(self)@,
                    provider@,
                    source_lang@,
                    target_lang@,
                    pv.take(i as int),
                ),
                self.persists() == old(self).persists(),
            decreases pairs@.len() - i,
        {
            let key = make_key(provider, source_lang, target_lang, pairs[i].0.as_str());
            proof {
                assert(pv.take(i + 1).drop_last() =~= pv.take(i as int));
                assert(pv.take(i + 1).last() == (pairs@[i as int].0@, pairs@[i as int].1@));
            }
            self.store(key, pairs[i].1.clone());
            i = i + 1;
        }
        assert(pv.take(pairs@.len() as int) =~= pv);
    }

    /// Number of entries and total bytes of keys and values.
    pub fn stats(&self) -> (r: (usize, usize))
        requires
            self.stored_bytes() <= usize::MAX,
        ensures
            r.0 == self@.dom().len(),
            r.1 == self.stored_bytes(),
    {
        proof {
            use_type_invariant(self);
            self.lemma_finite();
        }
        let ghost pv = pair_views(self.entries@);
        let total = self.entries.len();
        let mut size: u128 = 0;
        let mut i: usize = 0;
        while i < self.entries.len()
            invariant
                i <= self.entries@.len(),
                pv == pair_views(self.entries@),
                size == pairs_bytes(pv.take(i as int)),
                pairs_bytes(pv) <= usize::MAX,
            decreases self.entries@.len() - i,
        {
            let kb = utf8_byte_len(&chars_of(self.entries[i].0.as_str()));
            let vb = utf8_byte_len(&chars_of(self.entries[i].1.as_str()));
            proof {
                assert(pv.take(i + 1).drop_last() =~= pv.take(i as int));
                assert(pv.take(i + 1).last() == (self.entries@[i as int].0@, self.entries@[i as int].1@));
                lemma_pairs_bytes_prefix(pv, i + 1);
            }
            size = size + kb + vb;
            i = i + 1;
        }
        assert(pv.take(self.entries@.len() as int) =~= pv);
        (total, size as usize)
    }

    /// Removes every entry.
    pub fn clear(&mut self)
        ensures
            final(self)@ == Map::<Seq<char>, Seq<char>>::empty(),
            final(self).persists() == old(self).persists(),
    {
        proof {
            use_type_invariant(&*self);
        }
        self.entries = Vec::new();
        assert(pair_views(self.entries@) =~= Seq::<(Seq<char>, Seq<char>)>::empty());
    }

    /// Replaces the contents with the given pairs (a later pair wins over an
    /// earlier one with the same key), as loading the cache file does.
    pub fn load_entries(&mut self, pairs: Vec<(String, String)>)
        ensures
            final(self)@ == pairs_map(pair_views(pairs@)),
            final(self).persists() == old(self).persists(),
    {
        self.clear();
        let ghost pv = pair_views(pairs@);
        let mut i: usize = 0;
        while i < pairs.len()
            invariant
                i <= pairs@.len(),
                pv == pair_views(pairs@),
                self@ == pairs_map(pv.take(i as int)),
                self.persists() == old(self).persists(),
            decreases pairs@.len() - i,
        {
            proof {
                assert(pv.take(i + 1).drop_last() =~= pv.take(i as int));
                assert(pv.take(i + 1).last() == (pairs@[i as int].0@, pairs@[i as int].1@));
            }
            self.store(pairs[i].0.clone(), pairs[i].1.clone());
            i = i + 1;
        }
        assert(pv.take(pairs@.len() as int) =~= pv);
    }

    /// All entries as `(key, translation)` pairs, each key once, for saving.
    pub fn to_pairs(&self) -> (r: Vec<(String, String)>)
        ensures
            pairs_map(pair_views(r@)) == self@,
            keys_distinct(pair_views(r@)),
    {
        proof {
            use_type_invariant(self);
        }
        let mut r: Vec<(String, String)> = Vec::new();
        let mut i: usize = 0;
        while i < self.entries.len()
            invariant
                i <= self.entries@.len(),
                pair_views(r@) == pair_views(self.entries@).take(i as int),
            decreases self.entries@.len() - i,
        {
            let e = &self.entries[i];
            let k = e.0.clone();
            let v = e.1.clone();
            proof {
                assert(pair_views(self.entries@)[i as int] == (k@, v@));
            }
            let ghost old_r = r@;
            let ghost kv = (k@, v@);
            r.push((k, v));
            proof {
                assert(pair_views(r@) =~= pair_views(old_r).push(kv));
                assert(pair_views(self.entries@).take(i + 1) =~= pair_views(self.entries@).take(
                    i as int,
                ).push(kv));
            }
            i = i + 1;
            assert(pair_views(r@) =~= pair_views(self.entries@).take(i as int));
        }
        assert(pair_views(self.entries@).take(i as int) =~= pair_views(self.entries@));
        r
    }

    /// Replaces the contents with those of a saved cache file, when `text`
    /// is a JSON object of strings, and tells whether it was; otherwise the
    /// cache is left as it is.
    pub fn load_from_json(&mut self, text: &str) -> (ok: bool)
        ensures
            ok == json_object_of(text@) is Some,
            ok ==> json_object_of(text@) == Some(final(self)@),
            !ok ==> final(self)@ == old(self)@,
            final(self).persists() == old(self).persists(),
    {
        match json_decode_object(text) {
            Ok(pairs) => {
                self.load_entries(pairs);
                true
            },
            Err(_) => false,
        }
    }

    /// The contents as the text of a cache file: a JSON object from key to
    /// translation, which `load_from_json` reads back to the same entries.
    pub fn to_json(&self) -> (r: String)
        ensures
            json_object_of(r@) == Some(self@),
    {
        let pairs = self.to_pairs();
        match json_encode_object(pairs.as_slice()) {
            Ok(t) => t,
            Err(_) => String::new(),
        }
    }

    /// Whether the cache is saved to disk.
    pub fn persist_to_disk(&self) -> (b: bool)
        ensures
            b == self.persists(),
    {
        self.persist_to_disk
    }

    /// Path of the cache file.
    pub fn cache_file(&self) -> (p: &str)
        ensures
            p@ == CACHE_FILE@,
    {
        proof {
            use_type_invariant(self);
        }
        self.cache_file.as_str()
    }
}

} // verus!
