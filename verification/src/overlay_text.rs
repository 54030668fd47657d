//! What the overlay writes: which translations are shown and the text of
//! each view. Placing and drawing the text is done by the GUI around the
//! library.

use vstd::prelude::*;
use crate::cache::string_views;
use crate::subtitle::{entry_texts, keep_last, SubtitleEntry};
use crate::translator::join_spec;

verus! {

/// Whether a translation is drawn on its own: it is not empty and differs
/// from the text it translates.
pub fn shows_translation(original: &str, translated: &str) -> (r: bool)
    ensures
        r == (translated@.len() > 0 && original@ != translated@),
{
    !translated.is_empty() && !crate::text::chars_eq(
        &crate::text::chars_of(original),
        &crate::text::chars_of(translated),
    )
}

/// The translations of the pairs whose translation differs from the original, in order.
pub open spec fn changed_translations(pairs: Seq<(Seq<char>, Seq<char>)>) -> Seq<Seq<char>>
    decreases pairs.len(),
{
    if pairs.len() == 0 {
        Seq::empty()
    } else if pairs.last().0 == pairs.last().1 {
        changed_translations(pairs.drop_last())
    } else {
        changed_translations(pairs.drop_last()).push(pairs.last().1)
    }
}

/// The text shown over a captured region: the translations that differ from
/// their originals, joined by spaces.
pub fn region_overlay_text(pairs: &[(String, String)]) -> (r: String)
    ensures
        r@ == join_spec(changed_translations(crate::cache::pair_views(pairs@)), seq![' ']),
{
    let ghost pv = crate::cache::pair_views(pairs@);
    let mut r = String::new();
    let mut any = false;
    let mut i: usize = 0;
    while i < pairs.len()
        invariant
            i <= pairs@.len(),
            pv == crate::cache::pair_views(pairs@),
            any == (changed_translations(pv.take(i as int)).len() > 0),
            r@ == join_spec(changed_translations(pv.take(i as int)), seq![' ']),
        decreases pairs@.len() - i,
    {
        let (o, t) = (&pairs[i].0, &pairs[i].1);
        proof {
            assert(pv.take(i + 1).drop_last() =~= pv.take(i as int));
            assert(pv.take(i + 1).last() == (o@, t@));
        }
        let same = crate::text::chars_eq(&crate::text::chars_of(o.as_str()), &crate::text::chars_of(t.as_str()));
        if !same {
            if any {
                crate::text::push_char(&mut r, ' ');
            }
            r.append(t.as_str());
            proof {
                let prev = changed_translations(pv.take(i as int));
                assert(changed_translations(pv.take(i + 1)) == prev.push(t@));
                if prev.len() > 0 {
                    assert(prev.push(t@).drop_last() =~= prev);
                } else {
                    assert(prev.push(t@) =~= seq![t@]);
                }
            }
            any = true;
        }
        i = i + 1;
    }
    assert(pv.take(i as int) =~= pv);
    r
}

/// The lines of the subtitle overlay: the last `max_lines` translations of
/// the history (all when there are fewer), oldest first, each after "- ".
pub open spec fn subtitle_lines_spec(history: Seq<SubtitleEntry>, max_lines: nat) -> Seq<Seq<char>> {
    let kept = keep_last(entry_texts(history), max_lines);
    Seq::new(kept.len(), |i: int| "- "@ + kept[i])
}

/// The lines of the subtitle overlay (see `subtitle_lines_spec`).
pub fn subtitle_lines(history: &[SubtitleEntry], max_lines: usize) -> (r: Vec<String>)
    ensures
        string_views(r@) == subtitle_lines_spec(history@, max_lines as nat),
{
    let ghost all = entry_texts(history@);
    let n = history.len();
    let start: usize = if n > max_lines {
        n - max_lines
    } else {
        0
    };
    let mut r: Vec<String> = Vec::new();
    let mut i: usize = start;
    while i < n
        invariant
            start <= i <= n,
            n == history@.len(),
            all == entry_texts(history@),
            string_views(r@) == Seq::new(
                (i - start) as nat,
                |j: int| "- "@ + all[start + j],
            ),
        decreases n - i,
    {
        let mut line = String::from_str("- ");
        line.append(history[i].translated.as_str());
        let ghost before = string_views(r@);
        r.push(line);
        assert(string_views(r@) =~= before.push("- "@ + all[i as int]));
        i = i + 1;
        assert(string_views(r@) =~= Seq::new((i - start) as nat, |j: int| "- "@ + all[start + j]));
    }
    proof {
        let kept = keep_last(all, max_lines as nat);
        assert(kept =~= all.subrange(start as int, n as int));
    }
    r
}

} // verus!
