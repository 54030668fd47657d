//! Text normalisation and Levenshtein similarity used to tell subtitles apart.

use vstd::prelude::*;
use crate::text::{
    chars_of, char_is_alphanumeric, collapse_whitespace, collapse_ws, is_alphanumeric, lowercase_of,
    string_from_chars, to_lowercase, trim_chars, trim_ws, utf8_byte_len, utf8_len,
};

verus! {

/// Minimum number of bytes a normalised text needs to count as a subtitle.
pub const MIN_TEXT_LENGTH: usize = 3;

/// Keeps letters, digits and the plain space.
pub open spec fn keeps_in_normal_form(c: char) -> bool {
    char_is_alphanumeric(c) || c == ' '
}

/// The normal form used to compare texts: trimmed and lower-cased, words
/// (split at any whitespace) joined by single spaces, every character that is
/// neither alphanumeric nor a space removed, and the words left joined by
/// single spaces again (so no extra space is left where punctuation was).
pub open spec fn normalize_spec(s: Seq<char>) -> Seq<char> {
    collapse_ws(collapse_ws(lowercase_of(trim_ws(s))).filter(|c: char| keeps_in_normal_form(c)))
}

/// The smaller of two naturals.
pub open spec fn min2(a: nat, b: nat) -> nat {
    if a <= b { a } else { b }
}

/// The larger of two naturals.
pub open spec fn max2(a: nat, b: nat) -> nat {
    if a >= b { a } else { b }
}

/// The Levenshtein distance: the least number of single-character insertions,
/// deletions and substitutions that turn `a` into `b`.
pub open spec fn lev(a: Seq<char>, b: Seq<char>) -> nat
    decreases a.len() + b.len(),
{
    if a.len() == 0 {
        b.len()
    } else if b.len() == 0 {
        a.len()
    } else {
        let cost: nat = if a.last() == b.last() { 0 } else { 1 };
        min2(
            min2(lev(a.drop_last(), b) + 1, lev(a, b.drop_last()) + 1),
            lev(a.drop_last(), b.drop_last()) + cost,
        )
    }
}

/// Two normalised texts count as the same subtitle when both are empty, or
/// both are non-empty and their Levenshtein distance is under a quarter of
/// the character count of the longer one: the similarity `1 - d/len` is
/// above 0.75.
pub open spec fn similar_spec(a: Seq<char>, b: Seq<char>) -> bool {
    if (a.len() == 0) != (b.len() == 0) {
        false
    } else if a.len() == 0 {
        true
    } else {
        4 * lev(a, b) < max2(a.len(), b.len())
    }
}

/// The distance is bounded by the longer length.
pub proof fn lemma_lev_upper(a: Seq<char>, b: Seq<char>)
    ensures
        lev(a, b) <= max2(a.len(), b.len()),
    decreases a.len() + b.len(),
{
    if a.len() > 0 && b.len() > 0 {
        lemma_lev_upper(a.drop_last(), b.drop_last());
    }
}

/// A text is at distance zero from itself.
pub proof fn lemma_lev_self(a: Seq<char>)
    ensures
        lev(a, a) == 0,
    decreases a.len(),
{
    if a.len() > 0 {
        lemma_lev_self(a.drop_last());
    }
}

/// The distance is never below the difference of the lengths.
pub proof fn lemma_lev_lower(a: Seq<char>, b: Seq<char>)
    ensures
        lev(a, b) >= a.len() - b.len(),
        lev(a, b) >= b.len() - a.len(),
    decreases a.len() + b.len(),
{
    if a.len() > 0 && b.len() > 0 {
        lemma_lev_lower(a.drop_last(), b);
        lemma_lev_lower(a, b.drop_last());
        lemma_lev_lower(a.drop_last(), b.drop_last());
    }
}

/// The distance does not depend on the order of its arguments.
pub proof fn law_lev_symmetric(a: Seq<char>, b: Seq<char>)
    ensures
        lev(a, b) == lev(b, a),
    decreases a.len() + b.len(),
{
    if a.len() > 0 && b.len() > 0 {
        law_lev_symmetric(a.drop_last(), b);
        law_lev_symmetric(a, b.drop_last());
        law_lev_symmetric(a.drop_last(), b.drop_last());
    }
}

/// Every text is similar to itself.
pub proof fn law_similar_reflexive(a: Seq<char>)
    ensures
        similar_spec(a, a),
{
    lemma_lev_self(a);
}

/// Similarity does not depend on the order of the texts.
pub proof fn law_similar_symmetric(a: Seq<char>, b: Seq<char>)
    ensures
        similar_spec(a, b) == similar_spec(b, a),
{
    law_lev_symmetric(a, b);
}

/// The Levenshtein distance between the characters of `s1` and `s2`, computed
/// row by row, keeping only two rows of the table.
pub fn levenshtein_distance(s1: &str, s2: &str) -> (d: usize)
    ensures
        d == lev(s1@, s2@),
{
    let a = chars_of(s1);
    let b = chars_of(s2);
    let len1 = a.len();
    let len2 = b.len();
    if len1 == 0 {
        return len2;
    }
    if len2 == 0 {
        return len1;
    }
    // Column 0 of each row is kept apart: `row[k]` holds column `k + 1`.
    let mut prev_row: Vec<usize> = Vec::new();
    let mut k: usize = 0;
    while k < len2
        invariant
            len2 == b@.len(),
            k <= len2,
            prev_row@.len() == k,
            forall|c: int| 0 <= c < k ==> prev_row@[c] == lev(a@.take(0), b@.take(c + 1)),
        decreases len2 - k,
    {
        proof {
            assert(b@.take(k + 1).len() == k + 1);
        }
        prev_row.push(k + 1);
        k = k + 1;
    }
    let mut curr_row: Vec<usize> = Vec::new();
    let mut k: usize = 0;
    while k < len2
        invariant
            k <= len2,
            curr_row@.len() == k,
        decreases len2 - k,
    {
        curr_row.push(0);
        k = k + 1;
    }
    let mut prev0: usize = 0;
    let mut i: usize = 0;
    while i < len1
        invariant
            len1 == a@.len(),
            len2 == b@.len(),
            len1 > 0,
            len2 > 0,
            i <= len1,
            prev0 == i,
            prev_row@.len() == len2,
            curr_row@.len() == len2,
            forall|c: int| 0 <= c < len2 ==> prev_row@[c] == lev(a@.take(i as int), b@.take(c + 1)),
        decreases len1 - i,
    {
        let curr0: usize = i + 1;
        let ghost x = a@.take(i + 1);
        proof {
            assert(x.drop_last() =~= a@.take(i as int));
            assert(x.last() == a@[i as int]);
            assert(b@.take(0).len() == 0);
            assert(a@.take(i as int).len() == i);
        }
        let mut k: usize = 0;
        while k < len2
            invariant
                len1 == a@.len(),
                len2 == b@.len(),
                i < len1,
                prev0 == i,
                curr0 == i + 1,
                k <= len2,
                x == a@.take(i + 1),
                x.drop_last() == a@.take(i as int),
                x.last() == a@[i as int],
                prev_row@.len() == len2,
                curr_row@.len() == len2,
                forall|c: int| 0 <= c < len2 ==> prev_row@[c] == lev(a@.take(i as int), b@.take(c + 1)),
                forall|c: int| 0 <= c < k ==> curr_row@[c] == lev(x, b@.take(c + 1)),
            decreases len2 - k,
        {
            let ghost y = b@.take(k + 1);
            proof {
                assert(y.drop_last() =~= b@.take(k as int));
                assert(y.last() == b@[k as int]);
                assert(a@.take(i as int).len() == i);
                assert(b@.take(k as int).len() == k);
                assert(x.len() == i + 1);
                assert(y.len() == k + 1);
                lemma_lev_upper(x, y);
            }
            proof {
                if k > 0 {
                    assert(b@.take((k - 1) + 1) =~= b@.take(k as int));
                    assert(prev_row@[k - 1] == lev(a@.take(i as int), b@.take(k as int)));
                    assert(curr_row@[k - 1] == lev(x, b@.take(k as int)));
                } else {
                    assert(b@.take(0) =~= Seq::<char>::empty());
                    assert(lev(x, b@.take(0)) == x.len());
                    assert(lev(a@.take(i as int), b@.take(0)) == i);
                }
                assert(prev_row@[k as int] == lev(a@.take(i as int), y));
            }
            let cost: u128 = if a[i] == b[k] { 0 } else { 1 };
            let diag: usize = if k == 0 { prev0 } else { prev_row[k - 1] };
            let left: usize = if k == 0 { curr0 } else { curr_row[k - 1] };
            let up: usize = prev_row[k];
            let del: u128 = up as u128 + 1;
            let ins: u128 = left as u128 + 1;
            let sub: u128 = diag as u128 + cost;
            let m1: u128 = if del <= ins { del } else { ins };
            let m: u128 = if m1 <= sub { m1 } else { sub };
            curr_row.set(k, m as usize);
            k = k + 1;
        }
        std::mem::swap(&mut prev_row, &mut curr_row);
        prev0 = curr0;
        i = i + 1;
    }
    proof {
        assert(a@.take(len1 as int) =~= a@);
        assert(b@.take(len2 as int) =~= b@);
    }
    prev_row[len2 - 1]
}

/// Whether two normalised texts count as the same subtitle (see `similar_spec`).
pub fn texts_are_similar_levenshtein(text1: &str, text2: &str) -> (r: bool)
    ensures
        r == similar_spec(text1@, text2@),
{
    if text1.is_empty() != text2.is_empty() {
        return false;
    }
    if text1.is_empty() && text2.is_empty() {
        return true;
    }
    let distance = levenshtein_distance(text1, text2);
    let len1 = chars_of(text1).len();
    let len2 = chars_of(text2).len();
    let max_len = if len1 >= len2 { len1 } else { len2 };
    4 * (distance as u128) < max_len as u128
}

/// The normal form of `text` (see `normalize_spec`).
pub fn normalize_text(text: &str) -> (r: String)
    ensures
        r@ == normalize_spec(text@),
{
    let v = chars_of(text);
    let t = trim_chars(&v);
    let ts = string_from_chars(&t);
    let lower = to_lowercase(ts.as_str());
    let lv = chars_of(lower.as_str());
    let c = collapse_whitespace(&lv);
    let mut f: Vec<char> = Vec::new();
    let mut i: usize = 0;
    while i < c.len()
        invariant
            i <= c.len(),
            f@ == c@.take(i as int).filter(|ch: char| keeps_in_normal_form(ch)),
        decreases c.len() - i,
    {
        let ch = c[i];
        proof {
            reveal(Seq::filter);
            assert(c@.take(i + 1).drop_last() =~= c@.take(i as int));
        }
        if is_alphanumeric(ch) || ch == ' ' {
            f.push(ch);
        }
        i = i + 1;
    }
    assert(c@.take(c.len() as int) =~= c@);
    string_from_chars(&collapse_whitespace(&f))
}

// ---------------------------------------------------------------------------
// Character-set similarity
// ---------------------------------------------------------------------------

/// The distance between two byte lengths.
pub open spec fn len_gap(a: nat, b: nat) -> nat {
    if a >= b {
        (a - b) as nat
    } else {
        (b - a) as nat
    }
}

/// The older comparison of two texts by the characters they use: both empty
/// count as similar, one empty as different; otherwise the byte lengths may
/// differ by at most a fifth of the longer one, and the characters the texts
/// share must be more than 85% of all the characters either uses. The ratio
/// test `common / total > 0.85` is written `20 * common > 17 * total`, which
/// gives the same answer: the sets hold at most 0x110000 characters, so a
/// ratio other than 0.85 is at least 1/(20 * total) away from it, far more
/// than the rounding of the division.
pub open spec fn charset_similar_spec(a: Seq<char>, b: Seq<char>) -> bool {
    if (a.len() == 0) != (b.len() == 0) {
        false
    } else if a.len() == 0 {
        true
    } else {
        let l1 = utf8_len(a);
        let l2 = utf8_len(b);
        let longest = max2(l1, l2);
        if longest > 0 && len_gap(l1, l2) > longest / 5 {
            false
        } else {
            let common = a.to_set().intersect(b.to_set()).len();
            let total = a.to_set().union(b.to_set()).len();
            total == 0 || 20 * common > 17 * total
        }
    }
}

/// Whether `c` is among the characters of `v`.
fn contains_char(v: &Vec<char>, c: char) -> (r: bool)
    ensures
        r == v@.contains(c),
{
    let mut i: usize = 0;
    while i < v.len()
        invariant
            i <= v@.len(),
            forall|j: int| 0 <= j < i ==> v@[j] != c,
        decreases v@.len() - i,
    {
        if v[i] == c {
            return true;
        }
        i = i + 1;
    }
    false
}

/// The distinct characters of `v`, in order of first appearance.
fn distinct_chars(v: &Vec<char>) -> (r: Vec<char>)
    ensures
        r@.no_duplicates(),
        r@.to_set() == v@.to_set(),
{
    broadcast use vstd::seq_lib::group_seq_properties;

    let mut r: Vec<char> = Vec::new();
    let mut i: usize = 0;
    while i < v.len()
        invariant
            i <= v@.len(),
            r@.no_duplicates(),
            r@.to_set() == v@.take(i as int).to_set(),
        decreases v@.len() - i,
    {
        let c = v[i];
        assert(v@.take(i + 1) =~= v@.take(i as int).push(c));
        proof { v@.take(i as int).lemma_push_to_set_commute(c); }
        if !contains_char(&r, c) {
            let ghost old_r = r@;
            r.push(c);
            proof {
                old_r.lemma_push_to_set_commute(c);
                assert forall|a: int, b: int| 0 <= a < b < r@.len() implies r@[a] != r@[b] by {
                    if b == r@.len() - 1 {
                        assert(old_r.contains(r@[a]));
                    }
                }
            }
        } else {
            assert(v@.take(i as int).to_set().contains(c));
            assert(v@.take(i + 1).to_set() =~= v@.take(i as int).to_set());
        }
        i = i + 1;
    }
    assert(v@.take(i as int) =~= v@);
    r
}

/// The characters of `a` (without repeats) that `b` also holds.
fn shared_chars(a: &Vec<char>, b: &Vec<char>) -> (r: Vec<char>)
    requires
        a@.no_duplicates(),
    ensures
        r@.no_duplicates(),
        r@.to_set() == a@.to_set().intersect(b@.to_set()),
{
    broadcast use vstd::seq_lib::group_seq_properties;

    let mut r: Vec<char> = Vec::new();
    let mut i: usize = 0;
    while i < a.len()
        invariant
            i <= a@.len(),
            a@.no_duplicates(),
            r@.no_duplicates(),
            r@.to_set() == a@.take(i as int).to_set().intersect(b@.to_set()),
            forall|c: char| r@.contains(c) ==> a@.take(i as int).contains(c),
        decreases a@.len() - i,
    {
        let c = a[i];
        assert(a@.take(i + 1) =~= a@.take(i as int).push(c));
        proof { a@.take(i as int).lemma_push_to_set_commute(c); }
        if contains_char(b, c) {
            assert(!a@.take(i as int).contains(c)) by {
                if a@.take(i as int).contains(c) {
                    let j = choose|j: int| 0 <= j < i && a@.take(i as int)[j] == c;
                    assert(a@[j] == a@[i as int]);
                }
            }
            let ghost old_r = r@;
            r.push(c);
            proof {
                old_r.lemma_push_to_set_commute(c);
                assert(!old_r.contains(c));
                assert forall|x: int, y: int| 0 <= x < y < r@.len() implies r@[x] != r@[y] by {
                    if y == r@.len() - 1 {
                        assert(old_r.contains(r@[x]));
                    }
                }
                assert forall|ch: char| r@.contains(ch) implies a@.take(i + 1).contains(ch) by {
                    if ch != c {
                        assert(old_r.contains(ch));
                        let j = choose|j: int| 0 <= j < i && a@.take(i as int)[j] == ch;
                        assert(a@.take(i + 1)[j] == ch);
                    } else {
                        assert(a@.take(i + 1)[i as int] == c);
                    }
                }
            }
            assert(r@.to_set() =~= a@.take(i + 1).to_set().intersect(b@.to_set()));
        } else {
            assert(a@.take(i + 1).to_set().intersect(b@.to_set()) =~= a@.take(i as int).to_set().intersect(b@.to_set()));
            assert forall|ch: char| r@.contains(ch) implies a@.take(i + 1).contains(ch) by {
                let j = choose|j: int| 0 <= j < i && a@.take(i as int)[j] == ch;
                assert(a@.take(i + 1)[j] == ch);
            }
        }
        i = i + 1;
    }
    assert(a@.take(i as int) =~= a@);
    r
}

/// Whether two texts use nearly the same characters (see
/// `charset_similar_spec`). Byte lengths beyond `i32::MAX` are outside what
/// the comparison handles.
pub fn texts_are_similar_charset(text1: &str, text2: &str) -> (r: bool)
    requires
        utf8_len(text1@) <= i32::MAX,
        utf8_len(text2@) <= i32::MAX,
    ensures
        r == charset_similar_spec(text1@, text2@),
{
    if text1.is_empty() != text2.is_empty() {
        return false;
    }
    if text1.is_empty() && text2.is_empty() {
        return true;
    }
    let c1 = chars_of(text1);
    let c2 = chars_of(text2);
    let len1 = utf8_byte_len(&c1);
    let len2 = utf8_byte_len(&c2);
    let gap = if len1 >= len2 { len1 - len2 } else { len2 - len1 };
    let longest = if len1 >= len2 { len1 } else { len2 };
    if longest > 0 && gap > longest / 5 {
        return false;
    }
    let d1 = distinct_chars(&c1);
    let d2 = distinct_chars(&c2);
    let both = shared_chars(&d1, &d2);
    proof {
        d1@.unique_seq_to_set();
        d2@.unique_seq_to_set();
        both@.unique_seq_to_set();
        vstd::seq_lib::seq_to_set_is_finite(c1@);
        vstd::seq_lib::seq_to_set_is_finite(c2@);
        vstd::set_lib::lemma_set_intersect_union_lens(c1@.to_set(), c2@.to_set());
        vstd::set_lib::lemma_len_intersect(c1@.to_set(), c2@.to_set());
    }
    let common = both.len() as u128;
    let total = (d1.len() as u128 + d2.len() as u128) - common;
    total == 0 || 20 * common > 17 * total
}

} // verus!
