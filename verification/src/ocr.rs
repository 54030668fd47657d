//! Clean-up of text recognised by OCR.

use vstd::prelude::*;
use crate::text::{
    char_is_alphanumeric, char_is_whitespace, chars_of, is_alphanumeric, is_whitespace,
    law_trim_idempotent, lemma_trim_is_subrange, lemma_trim_unchanged, string_from_chars, trim_chars, trim_ws,
};

verus! {

/// `s` with every occurrence of `pat` replaced by `rep`, matching from left to
/// right without overlaps (what `str::replace` does for a non-empty pattern).
pub open spec fn replace_spec(s: Seq<char>, pat: Seq<char>, rep: Seq<char>) -> Seq<char>
    decreases s.len(),
{
    if s.len() == 0 || pat.len() == 0 {
        s
    } else if pat.is_prefix_of(s) {
        rep + replace_spec(s.skip(pat.len() as int), pat, rep)
    } else {
        seq![s[0]] + replace_spec(s.skip(1), pat, rep)
    }
}

/// The character substitutions for common OCR confusions, applied in order.
pub open spec fn ocr_substitutions(s: Seq<char>) -> Seq<char> {
    let s1 = replace_spec(s, "|<"@, "K"@);
    let s2 = replace_spec(s1, "l<"@, "K"@);
    let s3 = replace_spec(s2, "|{"@, "K"@);
    let s4 = replace_spec(s3, "|"@, "I"@);
    let s5 = replace_spec(s4, "@"@, "a"@);
    let s6 = replace_spec(s5, "}{"@, "H"@);
    let s7 = replace_spec(s6, "]["@, "I"@);
    let s8 = replace_spec(s7, "|-|"@, "H"@);
    let s9 = replace_spec(s8, "/\\"@, "A"@);
    replace_spec(s9, "\\/"@, "V"@)
}

/// Characters that may stay in a subtitle: letters, digits, whitespace and
/// basic punctuation.
pub open spec fn ocr_keeps(c: char) -> bool {
    ||| char_is_alphanumeric(c)
    ||| char_is_whitespace(c)
    ||| c == '.' || c == ',' || c == '!' || c == '?' || c == '\'' || c == '"'
    ||| c == '-' || c == ':' || c == ';' || c == '(' || c == ')' || c == '\u{2026}'
}

/// `s` with every run of consecutive spaces shortened to one space (what
/// replacing `"  "` by `" "` until none is left produces).
pub open spec fn collapse_spaces(s: Seq<char>) -> Seq<char>
    decreases s.len(),
{
    if s.len() == 0 {
        s
    } else {
        let r = collapse_spaces(s.drop_last());
        if s.last() == ' ' && r.len() > 0 && r.last() == ' ' {
            r
        } else {
            r.push(s.last())
        }
    }
}

/// The cleaned form of an OCR text.
pub open spec fn clean_ocr_spec(s: Seq<char>) -> Seq<char> {
    trim_ws(collapse_spaces(ocr_substitutions(s).filter(|c: char| ocr_keeps(c))))
}

/// No two spaces are adjacent in `s`.
pub open spec fn no_double_space(s: Seq<char>) -> bool {
    forall|i: int| 0 <= i < s.len() - 1 ==> !(#[trigger] s[i] == ' ' && s[i + 1] == ' ')
}

proof fn lemma_collapse_spaces_shape(s: Seq<char>)
    ensures
        no_double_space(collapse_spaces(s)),
        s.len() > 0 ==> collapse_spaces(s).len() > 0 && collapse_spaces(s).last() == s.last(),
    decreases s.len(),
{
    if s.len() > 0 {
        lemma_collapse_spaces_shape(s.drop_last());
        let r = collapse_spaces(s.drop_last());
        let out = collapse_spaces(s);
        if !(s.last() == ' ' && r.len() > 0 && r.last() == ' ') {
            assert forall|i: int| 0 <= i < out.len() - 1 implies !(#[trigger] out[i] == ' ' && out[i
                + 1] == ' ') by {
                if i < r.len() - 1 {
                    assert(out[i] == r[i] && out[i + 1] == r[i + 1]);
                }
            }
        }
    }
}

/// The cleaned text has no two adjacent spaces, and neither starts nor ends
/// with whitespace.
pub proof fn law_clean_ocr_shape(s: Seq<char>)
    ensures
        no_double_space(clean_ocr_spec(s)),
        clean_ocr_spec(s).len() == 0 || (!char_is_whitespace(clean_ocr_spec(s)[0])
            && !char_is_whitespace(clean_ocr_spec(s).last())),
{
    let x = collapse_spaces(ocr_substitutions(s).filter(|c: char| ocr_keeps(c)));
    lemma_collapse_spaces_shape(ocr_substitutions(s).filter(|c: char| ocr_keeps(c)));
    let (a, b) = lemma_trim_is_subrange(x);
    let r = clean_ocr_spec(s);
    assert forall|i: int| 0 <= i < r.len() - 1 implies !(#[trigger] r[i] == ' ' && r[i + 1]
        == ' ') by {
        assert(r[i] == x[a + i] && r[i + 1] == x[a + i + 1]);
    }
}

/// The symbols that the OCR substitutions look for: each pattern holds at
/// least one of them.
pub open spec fn ocr_confusable(c: char) -> bool {
    c == '<' || c == '{' || c == '}' || c == '|' || c == '@' || c == '[' || c == ']' || c == '/'
        || c == '\\'
}

/// Replacing a pattern that holds a character absent from `s` changes nothing.
proof fn lemma_replace_absent(s: Seq<char>, pat: Seq<char>, rep: Seq<char>, k: int)
    requires
        0 <= k < pat.len(),
        !s.contains(pat[k]),
    ensures
        replace_spec(s, pat, rep) == s,
    decreases s.len(),
{
    if s.len() > 0 {
        if pat.is_prefix_of(s) {
            assert(s[k] == pat[k]);
        }
        let t = s.skip(1);
        assert forall|c: char| t.contains(c) implies s.contains(c) by {
            let j = choose|j: int| 0 <= j < t.len() && t[j] == c;
            assert(s[j + 1] == c);
        }
        lemma_replace_absent(t, pat, rep, k);
        assert(seq![s[0]] + t =~= s);
    }
}

/// Every character of `collapse_spaces(s)` is one of `s`.
proof fn lemma_collapse_spaces_from(s: Seq<char>)
    ensures
        forall|c: char| collapse_spaces(s).contains(c) ==> s.contains(c),
    decreases s.len(),
{
    if s.len() > 0 {
        lemma_collapse_spaces_from(s.drop_last());
        let r = collapse_spaces(s.drop_last());
        let p = s.drop_last();
        assert forall|c: char| collapse_spaces(s).contains(c) implies s.contains(c) by {
            let o = collapse_spaces(s);
            let j = choose|j: int| 0 <= j < o.len() && o[j] == c;
            if j < r.len() {
                assert(o[j] == r[j]);
                assert(r.contains(c));
                assert(p.contains(c));
                let i = choose|i: int| 0 <= i < p.len() && p[i] == c;
                assert(p[i] == s[i]);
                assert(s.contains(c));
            } else {
                assert(o == r.push(s.last()));
                assert(c == s.last());
                assert(s[s.len() - 1] == c);
            }
        }
    }
}

/// Collapsing the spaces of a text without two adjacent spaces changes nothing.
proof fn lemma_collapse_spaces_noop(s: Seq<char>)
    requires
        no_double_space(s),
    ensures
        collapse_spaces(s) == s,
    decreases s.len(),
{
    if s.len() > 0 {
        let p = s.drop_last();
        assert forall|i: int| 0 <= i < p.len() - 1 implies !(#[trigger] p[i] == ' ' && p[i + 1] == ' ') by {
            assert(p[i] == s[i] && p[i + 1] == s[i + 1]);
        }
        lemma_collapse_spaces_noop(p);
        if s.last() == ' ' && p.len() > 0 && p.last() == ' ' {
            assert(s[s.len() - 2] == ' ' && s[s.len() - 1] == ' ');
        }
        assert(p.push(s.last()) =~= s);
    }
}

/// Filtering a text whose characters all pass changes nothing.
proof fn lemma_filter_all(s: Seq<char>, pred: spec_fn(char) -> bool)
    requires
        forall|i: int| 0 <= i < s.len() ==> pred(#[trigger] s[i]),
    ensures
        s.filter(pred) == s,
    decreases s.len(),
{
    reveal(Seq::filter);
    if s.len() > 0 {
        let p = s.drop_last();
        assert forall|i: int| 0 <= i < p.len() implies pred(#[trigger] p[i]) by {
            assert(p[i] == s[i]);
        }
        lemma_filter_all(p, pred);
        assert(pred(s[s.len() - 1]));
        assert(p.push(s.last()) =~= s);
    }
}

/// Cleaning a cleaned text changes nothing. The substitutions cannot fire
/// again because each of their patterns holds a symbol that the character
/// filter drops.
pub proof fn law_clean_ocr_idempotent(s: Seq<char>)
    ensures
        clean_ocr_spec(clean_ocr_spec(s)) == clean_ocr_spec(s),
{
    broadcast use vstd::seq_lib::group_filter_ensures;

    let f = ocr_substitutions(s).filter(|c: char| ocr_keeps(c));
    let x = collapse_spaces(f);
    let y = clean_ocr_spec(s);
    assert(y == trim_ws(x));
    law_clean_ocr_shape(s);
    lemma_collapse_spaces_from(f);
    let (a, b) = lemma_trim_is_subrange(x);
    // every character of y passes the filter
    assert forall|i: int| 0 <= i < y.len() implies ocr_keeps(#[trigger] y[i]) by {
        assert(y[i] == x[a + i]);
        assert(x.contains(x[a + i]));
        assert(f.contains(y[i]));
        let j = choose|j: int| 0 <= j < f.len() && f[j] == y[i];
    }
    // so y holds none of the confusable symbols
    assert forall|c: char| ocr_confusable(c) implies !y.contains(c) by {
        if y.contains(c) {
            let j = choose|j: int| 0 <= j < y.len() && y[j] == c;
            assert(ocr_keeps(y[j]));
        }
    }
    assert(!y.contains('<') && !y.contains('{') && !y.contains('}') && !y.contains('|'));
    assert(!y.contains('@') && !y.contains('[') && !y.contains(']') && !y.contains('/'));
    assert(!y.contains('\\'));
    reveal_strlit("|<");
    reveal_strlit("l<");
    reveal_strlit("|{");
    reveal_strlit("|");
    reveal_strlit("@");
    reveal_strlit("}{");
    reveal_strlit("][");
    reveal_strlit("|-|");
    reveal_strlit("/\\");
    reveal_strlit("\\/");
    lemma_replace_absent(y, "|<"@, "K"@, 0);
    lemma_replace_absent(y, "l<"@, "K"@, 1);
    lemma_replace_absent(y, "|{"@, "K"@, 0);
    lemma_replace_absent(y, "|"@, "I"@, 0);
    lemma_replace_absent(y, "@"@, "a"@, 0);
    lemma_replace_absent(y, "}{"@, "H"@, 0);
    lemma_replace_absent(y, "]["@, "I"@, 0);
    lemma_replace_absent(y, "|-|"@, "H"@, 0);
    lemma_replace_absent(y, "/\\"@, "A"@, 0);
    lemma_replace_absent(y, "\\/"@, "V"@, 0);
    assert(ocr_substitutions(y) == y);
    lemma_filter_all(y, |c: char| ocr_keeps(c));
    lemma_collapse_spaces_noop(y);
    law_trim_idempotent(x);
}

/// ASCII letters and digits, the space, and the punctuation of subtitles:
/// . , ! ? ' " - : ; ( ) and the ellipsis.
pub open spec fn plain_subtitle_char(c: char) -> bool {
    ||| ('a' <= c && c <= 'z') || ('A' <= c && c <= 'Z') || ('0' <= c && c <= '9')
    ||| c == ' ' || c == '.' || c == ',' || c == '!' || c == '?' || c == '\'' || c == '"'
    ||| c == '-' || c == ':' || c == ';' || c == '(' || c == ')' || c == '\u{2026}'
}

/// Cleaning keeps plain subtitle text as it is: a text made only of ASCII
/// letters and digits, single spaces and the basic punctuation, with no space
/// at either end, comes back unchanged.
pub proof fn law_plain_text_is_kept(s: Seq<char>)
    requires
        forall|i: int| 0 <= i < s.len() ==> plain_subtitle_char(#[trigger] s[i]),
        no_double_space(s),
        s.len() == 0 || (s[0] != ' ' && s.last() != ' '),
    ensures
        clean_ocr_spec(s) == s,
{
    assert forall|c: char| ocr_confusable(c) implies !s.contains(c) by {
        if s.contains(c) {
            let j = choose|j: int| 0 <= j < s.len() && s[j] == c;
            assert(plain_subtitle_char(s[j]));
        }
    }
    assert(!s.contains('<') && !s.contains('{') && !s.contains('}') && !s.contains('|'));
    assert(!s.contains('@') && !s.contains('[') && !s.contains(']') && !s.contains('/'));
    assert(!s.contains('\\'));
    reveal_strlit("|<");
    reveal_strlit("l<");
    reveal_strlit("|{");
    reveal_strlit("|");
    reveal_strlit("@");
    reveal_strlit("}{");
    reveal_strlit("][");
    reveal_strlit("|-|");
    reveal_strlit("/\\");
    reveal_strlit("\\/");
    lemma_replace_absent(s, "|<"@, "K"@, 0);
    lemma_replace_absent(s, "l<"@, "K"@, 1);
    lemma_replace_absent(s, "|{"@, "K"@, 0);
    lemma_replace_absent(s, "|"@, "I"@, 0);
    lemma_replace_absent(s, "@"@, "a"@, 0);
    lemma_replace_absent(s, "}{"@, "H"@, 0);
    lemma_replace_absent(s, "]["@, "I"@, 0);
    lemma_replace_absent(s, "|-|"@, "H"@, 0);
    lemma_replace_absent(s, "/\\"@, "A"@, 0);
    lemma_replace_absent(s, "\\/"@, "V"@, 0);
    assert(ocr_substitutions(s) == s);
    assert forall|i: int| 0 <= i < s.len() implies ocr_keeps(#[trigger] s[i]) by {
        assert(plain_subtitle_char(s[i]));
    }
    lemma_filter_all(s, |c: char| ocr_keeps(c));
    lemma_collapse_spaces_noop(s);
    if s.len() > 0 {
        assert(plain_subtitle_char(s[0]));
        assert(plain_subtitle_char(s[s.len() - 1]));
    }
    lemma_trim_unchanged(s);
}

/// Whether `pat` occurs in `s` at position `i`.
fn matches_at(s: &Vec<char>, i: usize, pat: &Vec<char>) -> (r: bool)
    requires
        i <= s@.len(),
    ensures
        r == pat@.is_prefix_of(s@.skip(i as int)),
{
    if pat.len() > s.len() - i {
        return false;
    }
    let mut k: usize = 0;
    while k < pat.len()
        invariant
            i + pat@.len() <= s@.len(),
            s@.len() == s.len(),
            k <= pat@.len(),
            forall|j: int| 0 <= j < k ==> pat@[j] == s@[i + j],
        decreases pat@.len() - k,
    {
        if pat[k] != s[i + k] {
            assert(s@.skip(i as int).subrange(0, pat@.len() as int)[k as int] == s@[i + k]);
            return false;
        }
        k = k + 1;
    }
    assert(pat@ =~= s@.skip(i as int).subrange(0, pat@.len() as int));
    true
}

/// Replaces every occurrence of `pat` by `rep`, from left to right.
pub fn replace_chars(s: &Vec<char>, pat: &Vec<char>, rep: &Vec<char>) -> (r: Vec<char>)
    requires
        pat@.len() > 0,
    ensures
        r@ == replace_spec(s@, pat@, rep@),
{
    let mut out: Vec<char> = Vec::new();
    let mut i: usize = 0;
    assert(s@.skip(0) =~= s@);
    while i < s.len()
        invariant
            pat@.len() > 0,
            i <= s@.len(),
            out@ + replace_spec(s@.skip(i as int), pat@, rep@) == replace_spec(s@, pat@, rep@),
        decreases s@.len() - i,
    {
        let ghost rest = s@.skip(i as int);
        if matches_at(s, i, pat) {
            let mut k: usize = 0;
            let ghost out0 = out@;
            while k < rep.len()
                invariant
                    k <= rep@.len(),
                    out@ == out0 + rep@.take(k as int),
                decreases rep@.len() - k,
            {
                out.push(rep[k]);
                k = k + 1;
                assert(out@ =~= out0 + rep@.take(k as int));
            }
            proof {
                assert(rep@.take(rep@.len() as int) =~= rep@);
                assert(rest.skip(pat@.len() as int) =~= s@.skip(i + pat@.len()));
                assert(out0 + (rep@ + replace_spec(rest.skip(pat@.len() as int), pat@, rep@))
                    =~= out@ + replace_spec(rest.skip(pat@.len() as int), pat@, rep@));
            }
            i = i + pat.len();
        } else {
            let ghost out0 = out@;
            out.push(s[i]);
            proof {
                assert(rest[0] == s@[i as int]);
                assert(rest.skip(1) =~= s@.skip(i + 1));
                assert(out0 + (seq![rest[0]] + replace_spec(rest.skip(1), pat@, rep@)) =~= out@
                    + replace_spec(rest.skip(1), pat@, rep@));
            }
            i = i + 1;
        }
    }
    proof {
        assert(s@.skip(i as int) =~= Seq::<char>::empty());
        assert(out@ + Seq::<char>::empty() =~= out@);
    }
    out
}

/// Replaces `pat` by `rep` in `s`, both given as string literals.
fn replace_literal(s: &Vec<char>, pat: &str, rep: &str) -> (r: Vec<char>)
    requires
        pat@.len() > 0,
    ensures
        r@ == replace_spec(s@, pat@, rep@),
{
    replace_chars(s, &chars_of(pat), &chars_of(rep))
}

/// Shortens every run of spaces to one space.
pub fn collapse_spaces_chars(s: &Vec<char>) -> (r: Vec<char>)
    ensures
        r@ == collapse_spaces(s@),
{
    let mut r: Vec<char> = Vec::new();
    let mut i: usize = 0;
    while i < s.len()
        invariant
            i <= s@.len(),
            r@ == collapse_spaces(s@.take(i as int)),
        decreases s@.len() - i,
    {
        let c = s[i];
        proof {
            assert(s@.take(i + 1).drop_last() =~= s@.take(i as int));
            assert(s@.take(i + 1).last() == c);
        }
        if !(c == ' ' && r.len() > 0 && r[r.len() - 1] == ' ') {
            r.push(c);
        }
        i = i + 1;
    }
    assert(s@.take(s@.len() as int) =~= s@);
    r
}

/// Cleans OCR text: fixes common character confusions, keeps only letters,
/// digits, whitespace and basic punctuation, shortens runs of spaces, trims.
pub fn clean_ocr_text(text: &str) -> (r: String)
    ensures
        r@ == clean_ocr_spec(text@),
{
    proof {
        reveal_strlit("|<");
        reveal_strlit("l<");
        reveal_strlit("|{");
        reveal_strlit("|");
        reveal_strlit("@");
        reveal_strlit("}{");
        reveal_strlit("][");
        reveal_strlit("|-|");
        reveal_strlit("/\\");
        reveal_strlit("\\/");
    }
    let s0 = chars_of(text);
    let s1 = replace_literal(&s0, "|<", "K");
    let s2 = replace_literal(&s1, "l<", "K");
    let s3 = replace_literal(&s2, "|{", "K");
    let s4 = replace_literal(&s3, "|", "I");
    let s5 = replace_literal(&s4, "@", "a");
    let s6 = replace_literal(&s5, "}{", "H");
    let s7 = replace_literal(&s6, "][", "I");
    let s8 = replace_literal(&s7, "|-|", "H");
    let s9 = replace_literal(&s8, "/\\", "A");
    let s10 = replace_literal(&s9, "\\/", "V");
    let mut kept: Vec<char> = Vec::new();
    let mut i: usize = 0;
    while i < s10.len()
        invariant
            i <= s10@.len(),
            kept@ == s10@.take(i as int).filter(|c: char| ocr_keeps(c)),
        decreases s10@.len() - i,
    {
        let c = s10[i];
        proof {
            reveal(Seq::filter);
            assert(s10@.take(i + 1).drop_last() =~= s10@.take(i as int));
        }
        let keep = is_alphanumeric(c) || is_whitespace(c) || c == '.' || c == ',' || c == '!'
            || c == '?' || c == '\'' || c == '"' || c == '-' || c == ':' || c == ';' || c == '('
            || c == ')' || c == '\u{2026}';
        if keep {
            kept.push(c);
        }
        i = i + 1;
    }
    assert(s10@.take(s10@.len() as int) =~= s10@);
    let collapsed = collapse_spaces_chars(&kept);
    string_from_chars(&trim_chars(&collapsed))
}

} // verus!
