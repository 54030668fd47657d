//! Real-time subtitles: detects when the recognised text changes, waits until a
//! new text is stable (debounce), and keeps a bounded history of translations.

use vstd::prelude::*;
use std::time::Instant;
use crate::clock::instant_now;
use vstd::utf8::encode_utf8;
use crate::similarity::{
    keeps_in_normal_form, law_similar_reflexive, normalize_spec, normalize_text, similar_spec,
    texts_are_similar_levenshtein, MIN_TEXT_LENGTH,
};
use crate::text::{
    all_ascii, chars_of, collapse_ws, law_trim_idempotent, lowercase_of, string_from_chars,
    trim_chars, trim_end_ws, trim_start_ws, trim_ws, utf8_byte_len, utf8_len,
};

verus! {

/// Most translated subtitles kept in the history.
pub const MAX_SUBTITLE_HISTORY: usize = 10;

/// Consecutive detections a new text needs before it is confirmed.
pub const REQUIRED_STABLE_COUNT: u32 = 2;

/// A translated subtitle in the history.
pub struct SubtitleEntry {
    /// Translated text.
    pub translated: String,
    /// When it was added.
    pub added_at: Instant,
}

/// A text waiting to become stable.
struct SubtitleCandidate {
    text: String,
    first_seen: Instant,
    seen_count: u32,
}

/// State of the subtitle system.
pub struct SubtitleState {
    last_confirmed_text: String,
    current_candidate: Option<SubtitleCandidate>,
    subtitle_history: Vec<SubtitleEntry>,
    required_stable_count: u32,
}

/// The last `n` elements of `s` (all of them when there are fewer).
pub open spec fn keep_last<A>(s: Seq<A>, n: nat) -> Seq<A> {
    if s.len() > n {
        s.skip(s.len() - n)
    } else {
        s
    }
}

/// The characters of an optional string.
pub open spec fn opt_chars(o: Option<String>) -> Option<Seq<char>> {
    match o {
        Some(s) => Some(s@),
        None => None,
    }
}

/// The texts of a sequence of history entries.
pub open spec fn entry_texts(h: Seq<SubtitleEntry>) -> Seq<Seq<char>> {
    h.map_values(|e: SubtitleEntry| e.translated@)
}

/// One detection step of the debounce state machine.
///
/// Given the last confirmed text, the current candidate (its text and how many
/// times it has been seen), the number of sightings needed, and the newly
/// detected text, returns the new last confirmed text, the new candidate, and
/// the text confirmed for translation, if any.
pub open spec fn detection_step(
    last: Seq<char>,
    candidate: Option<(Seq<char>, nat)>,
    required: nat,
    new_text: Seq<char>,
) -> (Seq<char>, Option<(Seq<char>, nat)>, Option<Seq<char>>) {
    let n = normalize_spec(new_text);
    if utf8_len(n) < MIN_TEXT_LENGTH {
        (last, candidate, None)
    } else if similar_spec(n, normalize_spec(last)) {
        (last, candidate, None)
    } else {
        match candidate {
            Some((text, count)) => {
                if similar_spec(n, normalize_spec(text)) {
                    if count + 1 >= required {
                        (text, None, Some(text))
                    } else {
                        (last, Some((text, count + 1)), None)
                    }
                } else {
                    (last, Some((trim_ws(new_text), 1)), None)
                }
            },
            None => (last, Some((trim_ws(new_text), 1)), None),
        }
    }
}

proof fn lemma_normalize_trimmed(t: Seq<char>)
    ensures
        normalize_spec(trim_ws(t)) == normalize_spec(t),
{
    law_trim_idempotent(t);
}

/// Debounce: starting without a candidate (or with one that differs), a text
/// that is long enough and differs from the last confirmed one is not
/// confirmed on its first sighting, and is confirmed (trimmed) on the second
/// consecutive one, when two sightings are required.
pub proof fn law_second_sighting_confirms(
    last: Seq<char>,
    candidate: Option<(Seq<char>, nat)>,
    t: Seq<char>,
)
    requires
        utf8_len(normalize_spec(t)) >= MIN_TEXT_LENGTH,
        !similar_spec(normalize_spec(t), normalize_spec(last)),
        candidate matches Some((c, _)) ==> !similar_spec(normalize_spec(t), normalize_spec(c)),
    ensures
        detection_step(last, candidate, 2, t) == (last, Some((trim_ws(t), 1nat)), None::<Seq<char>>),
        detection_step(last, Some((trim_ws(t), 1nat)), 2, t) == (
            trim_ws(t),
            None::<(Seq<char>, nat)>,
            Some(trim_ws(t)),
        ),
{
    lemma_normalize_trimmed(t);
    law_similar_reflexive(normalize_spec(t));
}

/// After `clear` (nothing confirmed, no candidate) any text long enough once
/// normalised is confirmed again on its second consecutive sighting, also one
/// that was confirmed before.
pub proof fn law_confirms_again_after_clear(t: Seq<char>)
    requires
        utf8_len(normalize_spec(t)) >= MIN_TEXT_LENGTH,
    ensures
        detection_step(Seq::empty(), None, 2, t) == (
            Seq::<char>::empty(),
            Some((trim_ws(t), 1nat)),
            None::<Seq<char>>,
        ),
        detection_step(Seq::empty(), Some((trim_ws(t), 1nat)), 2, t) == (
            trim_ws(t),
            None::<(Seq<char>, nat)>,
            Some(trim_ws(t)),
        ),
{
    let e = Seq::<char>::empty();
    assert(trim_start_ws(e) == e);
    assert(trim_end_ws(e) == e);
    assert(trim_ws(e) == e);
    assert(all_ascii(e));
    assert(lowercase_of(e) =~= e);
    assert(collapse_ws(e) == e);
    reveal(Seq::filter);
    assert(e.filter(|c: char| keeps_in_normal_form(c)) == e);
    assert(normalize_spec(e) == e);
    let n = normalize_spec(t);
    if n.len() == 0 {
        assert(n =~= e);
        assert(encode_utf8(e) =~= Seq::<u8>::empty());
    }
    assert(!similar_spec(n, normalize_spec(e)));
    law_second_sighting_confirms(e, None, t);
}

/// A text similar to the last confirmed one (once both are normalised)
/// confirms nothing and leaves the state as it is, whatever the candidate:
/// an OCR misread of the subtitle already on screen is ignored.
pub proof fn law_similar_to_confirmed_is_ignored(
    last: Seq<char>,
    candidate: Option<(Seq<char>, nat)>,
    required: nat,
    t: Seq<char>,
)
    requires
        similar_spec(normalize_spec(t), normalize_spec(last)),
    ensures
        detection_step(last, candidate, required, t) == (last, candidate, None::<Seq<char>>),
{
}

/// A text just confirmed is not confirmed again while it stays on screen.
pub proof fn law_confirmed_text_not_repeated(
    t: Seq<char>,
    candidate: Option<(Seq<char>, nat)>,
    required: nat,
)
    ensures
        detection_step(trim_ws(t), candidate, required, t).2 is None,
{
    lemma_normalize_trimmed(t);
    law_similar_reflexive(normalize_spec(t));
}

/// A detection step keeps the confirmed text and the candidate trimmed, and
/// what it confirms is trimmed.
pub proof fn law_detection_keeps_trimmed(
    last: Seq<char>,
    candidate: Option<(Seq<char>, nat)>,
    required: nat,
    t: Seq<char>,
)
    requires
        trim_ws(last) == last,
        candidate matches Some((c, _)) ==> trim_ws(c) == c,
    ensures
        ({
            let (l, c, out) = detection_step(last, candidate, required, t);
            &&& trim_ws(l) == l
            &&& c matches Some((ct, _)) ==> trim_ws(ct) == ct
            &&& out matches Some(o) ==> trim_ws(o) == o
        }),
{
    law_trim_idempotent(t);
}

impl SubtitleState {
    /// The last text confirmed for translation.
    pub closed spec fn last_confirmed(self) -> Seq<char> {
        self.last_confirmed_text@
    }

    /// The text waiting to become stable, with the number of times it was seen.
    pub closed spec fn candidate(self) -> Option<(Seq<char>, nat)> {
        match self.current_candidate {
            Some(c) => Some((c.text@, c.seen_count as nat)),
            None => None,
        }
    }

    /// The translated subtitles, oldest first.
    pub closed spec fn history(self) -> Seq<SubtitleEntry> {
        self.subtitle_history@
    }

    /// Number of consecutive sightings needed to confirm a text.
    pub closed spec fn required_count(self) -> nat {
        self.required_stable_count as nat
    }

    #[verifier::type_invariant]
    spec fn counts_in_range(self) -> bool {
        &&& self.required_stable_count == REQUIRED_STABLE_COUNT
        &&& match self.current_candidate {
            Some(c) => {
                &&& 1 <= c.seen_count < self.required_stable_count
                &&& trim_ws(c.text@) == c.text@
                &&& utf8_len(normalize_spec(c.text@)) >= MIN_TEXT_LENGTH
            },
            None => true,
        }
        &&& trim_ws(self.last_confirmed_text@) == self.last_confirmed_text@
        &&& (self.last_confirmed_text@.len() == 0 || utf8_len(normalize_spec(self.last_confirmed_text@))
            >= MIN_TEXT_LENGTH)
        &&& self.subtitle_history@.len() <= MAX_SUBTITLE_HISTORY
    }

    /// What holds of every state: at most `MAX_SUBTITLE_HISTORY` subtitles
    /// in the history; two sightings confirm a text; the confirmed text and
    /// the candidate's text are trimmed, and each (but an empty confirmed
    /// text, as after `new` or `clear`) has a normal form of at least
    /// `MIN_TEXT_LENGTH` bytes.
    pub open spec fn state_ok(self) -> bool {
        &&& self.history().len() <= MAX_SUBTITLE_HISTORY
        &&& self.required_count() == REQUIRED_STABLE_COUNT as nat
        &&& trim_ws(self.last_confirmed()) == self.last_confirmed()
        &&& (self.last_confirmed().len() == 0 || utf8_len(normalize_spec(self.last_confirmed()))
            >= MIN_TEXT_LENGTH)
        &&& self.candidate() matches Some((c, _)) ==> trim_ws(c) == c && utf8_len(normalize_spec(c))
            >= MIN_TEXT_LENGTH
    }

    /// Creates an empty state that confirms a text after two consecutive sightings.
    /// The two display times are accepted and not used.
    pub fn new(_min_display_secs: u64, _max_display_secs: u64) -> (s: Self)
        ensures
            s.last_confirmed() == Seq::<char>::empty(),
            s.candidate() is None,
            s.history() == Seq::<SubtitleEntry>::empty(),
            s.required_count() == REQUIRED_STABLE_COUNT as nat,
            s.state_ok(),
    {
        assert(trim_ws(Seq::<char>::empty()) == Seq::<char>::empty());
        SubtitleState {
            last_confirmed_text: String::new(),
            current_candidate: None,
            subtitle_history: Vec::new(),
            required_stable_count: REQUIRED_STABLE_COUNT,
        }
    }

    /// Processes a text read by OCR. Returns the text to translate once the same
    /// text (up to similarity) has been seen the required number of consecutive
    /// times and differs from the last confirmed one; `None` otherwise.
    pub fn process_detected_text(&mut self, new_text: &str) -> (r: Option<String>)
        ensures
            ({
                let (last, cand, out) = detection_step(
                    old(self).last_confirmed(),
                    old(self).candidate(),
                    old(self).required_count(),
                    new_text@,
                );
                &&& final(self).last_confirmed() == last
                &&& final(self).candidate() == cand
                &&& opt_chars(r) == out
            }),
            final(self).history() == old(self).history(),
            final(self).required_count() == old(self).required_count(),
            // A text too short once normalised is ignored.
            utf8_len(normalize_spec(new_text@)) < MIN_TEXT_LENGTH ==> r is None,
            // A text is confirmed only when it was already the candidate.
            r matches Some(t) ==> old(self).candidate() matches Some((c, _)) && t@ == c,
            // A confirmed text is trimmed and long enough once normalised.
            r matches Some(t) ==> trim_ws(t@) == t@ && utf8_len(normalize_spec(t@)) >= MIN_TEXT_LENGTH,
            old(self).state_ok(),
            final(self).state_ok(),
    {
        proof {
            use_type_invariant(&*self);
        }
        let r = self.detect(new_text);
        proof {
            use_type_invariant(&*self);
        }
        r
    }

    /// One detection step (see `detection_step`).
    fn detect(&mut self, new_text: &str) -> (r: Option<String>)
        ensures
            ({
                let (last, cand, out) = detection_step(
                    old(self).last_confirmed(),
                    old(self).candidate(),
                    old(self).required_count(),
                    new_text@,
                );
                &&& final(self).last_confirmed() == last
                &&& final(self).candidate() == cand
                &&& opt_chars(r) == out
            }),
            final(self).history() == old(self).history(),
            final(self).required_count() == old(self).required_count(),
            // A text too short once normalised is ignored.
            utf8_len(normalize_spec(new_text@)) < MIN_TEXT_LENGTH ==> r is None,
            // A text is confirmed only when it was already the candidate.
            r matches Some(t) ==> old(self).candidate() matches Some((c, _)) && t@ == c,
    {
        proof {
            use_type_invariant(&*self);
        }
        let normalized_new = normalize_text(new_text);
        let new_len = utf8_byte_len(&chars_of(normalized_new.as_str()));
        if new_len < MIN_TEXT_LENGTH as u128 {
            return None;
        }
        let normalized_last = normalize_text(self.last_confirmed_text.as_str());
        if texts_are_similar_levenshtein(normalized_new.as_str(), normalized_last.as_str()) {
            return None;
        }
        let current: Option<(String, Instant, u32)> = match &self.current_candidate {
            Some(c) => Some((c.text.clone(), c.first_seen, c.seen_count)),
            None => None,
        };
        match current {
            Some((text, first_seen, count)) => {
                let normalized_candidate = normalize_text(text.as_str());
                if texts_are_similar_levenshtein(
                    normalized_new.as_str(),
                    normalized_candidate.as_str(),
                ) {
                    let seen = count + 1;
                    if seen >= self.required_stable_count {
                        let confirmed = text.clone();
                        self.last_confirmed_text = confirmed.clone();
                        self.current_candidate = None;
                        Some(confirmed)
                    } else {
                        self.current_candidate = Some(
                            SubtitleCandidate { text, first_seen, seen_count: seen },
                        );
                        None
                    }
                } else {
                    self.start_candidate(new_text);
                    None
                }
            },
            None => {
                self.start_candidate(new_text);
                None
            },
        }
    }

    /// Makes the trimmed `new_text` the candidate, seen once.
    fn start_candidate(&mut self, new_text: &str)
        requires
            utf8_len(normalize_spec(new_text@)) >= MIN_TEXT_LENGTH,
        ensures
            final(self).candidate() == Some((trim_ws(new_text@), 1nat)),
            final(self).last_confirmed() == old(self).last_confirmed(),
            final(self).history() == old(self).history(),
            final(self).required_count() == old(self).required_count(),
    {
        proof {
            use_type_invariant(&*self);
        }
        let trimmed = string_from_chars(&trim_chars(&chars_of(new_text)));
        proof {
            law_trim_idempotent(new_text@);
            lemma_normalize_trimmed(new_text@);
        }
        self.current_candidate = Some(
            SubtitleCandidate { text: trimmed, first_seen: instant_now(), seen_count: 1 },
        );
    }

    /// Appends a translated subtitle, dropping the oldest ones beyond
    /// `MAX_SUBTITLE_HISTORY`.
    pub fn add_translated_subtitle(&mut self, translated: String)
        ensures
            final(self).history().len() > 0,
            final(self).history().last().translated == translated,
            final(self).history() == keep_last(
                old(self).history().push(final(self).history().last()),
                MAX_SUBTITLE_HISTORY as nat,
            ),
            final(self).history().len() <= MAX_SUBTITLE_HISTORY,
            final(self).last_confirmed() == old(self).last_confirmed(),
            final(self).candidate() == old(self).candidate(),
            final(self).required_count() == old(self).required_count(),
            old(self).state_ok(),
            final(self).state_ok(),
    {
        proof {
            use_type_invariant(&*self);
        }
        let entry = SubtitleEntry { translated, added_at: instant_now() };
        let mut history: Vec<SubtitleEntry> = Vec::new();
        std::mem::swap(&mut history, &mut self.subtitle_history);
        let ghost full = history@.push(entry);
        history.push(entry);
        let ghost mut k: int = 0;
        while history.len() > MAX_SUBTITLE_HISTORY
            invariant
                0 <= k <= full.len(),
                history@ == full.skip(k),
                history@.len() >= if full.len() > MAX_SUBTITLE_HISTORY {
                    MAX_SUBTITLE_HISTORY as int
                } else {
                    full.len() as int
                },
                full.last() == entry,
            decreases history@.len(),
        {
            history.remove(0);
            proof {
                assert(full.skip(k).remove(0) =~= full.skip(k + 1));
                k = k + 1;
            }
        }
        proof {
            assert(full.skip(k).last() == full.last());
            if full.len() <= MAX_SUBTITLE_HISTORY {
                assert(full.skip(0) =~= full);
            }
        }
        self.subtitle_history = history;
        proof {
            use_type_invariant(&*self);
        }
    }

    /// A copy of the history, oldest first.
    pub fn get_subtitle_history(&self) -> (h: Vec<SubtitleEntry>)
        ensures
            h@ == self.history(),
            h@.len() <= MAX_SUBTITLE_HISTORY,
            self.state_ok(),
    {
        proof {
            use_type_invariant(self);
        }
        let mut h: Vec<SubtitleEntry> = Vec::new();
        let mut i: usize = 0;
        while i < self.subtitle_history.len()
            invariant
                i <= self.subtitle_history@.len(),
                h@ == self.subtitle_history@.take(i as int),
            decreases self.subtitle_history@.len() - i,
        {
            let e = &self.subtitle_history[i];
            h.push(SubtitleEntry { translated: e.translated.clone(), added_at: e.added_at });
            i = i + 1;
            assert(h@ =~= self.subtitle_history@.take(i as int));
        }
        assert(self.subtitle_history@.take(i as int) =~= self.subtitle_history@);
        h
    }

    /// Whether there is any subtitle to show.
    pub fn has_subtitles(&self) -> (b: bool)
        ensures
            b == (self.history().len() > 0),
    {
        self.subtitle_history.len() > 0
    }

    /// Forgets the confirmed text, the candidate and the history.
    pub fn clear(&mut self)
        ensures
            final(self).last_confirmed() == Seq::<char>::empty(),
            final(self).candidate() is None,
            final(self).history() == Seq::<SubtitleEntry>::empty(),
            final(self).required_count() == old(self).required_count(),
            final(self).state_ok(),
    {
        proof {
            use_type_invariant(&*self);
            assert(trim_ws(Seq::<char>::empty()) == Seq::<char>::empty());
        }
        self.current_candidate = None;
        self.last_confirmed_text = String::new();
        self.subtitle_history = Vec::new();
        proof {
            use_type_invariant(&*self);
        }
    }
}

} // verus!
