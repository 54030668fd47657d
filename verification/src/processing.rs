//! The decisions of the translation pipeline: which captured lines need the
//! translation service, how the answers fill the results and the cache, what
//! a subtitle is translated with, and what is spoken. Capturing, OCR, the
//! requests and the audio are done around the library.

use vstd::prelude::*;
use crate::cache::{
    batch_found,
    batch_missing,
    cache_key,
    indexed_views,
    insert_pairs,
    pair_views,
    string_views,
    TranslationCache,
};
use crate::ocr::{clean_ocr_spec, clean_ocr_text};
use crate::app_state::{CaptureMode, CaptureRegion};
use crate::config::OverlayConfig;
use crate::hotkey::HotkeyAction;
use crate::subtitle::{entry_texts, keep_last, SubtitleEntry, SubtitleState, MAX_SUBTITLE_HISTORY};
use crate::text::chars_of;
use crate::translator::{is_literal, join_spec};

verus! {

/// The cleaned form of every captured line.
pub open spec fn clean_all(lines: Seq<Seq<char>>) -> Seq<Seq<char>> {
    Seq::new(lines.len(), |i: int| clean_ocr_spec(lines[i]))
}

/// One slot per text: its cached translation, or empty when it is not cached.
pub open spec fn cached_slots(
    m: Map<Seq<char>, Seq<char>>,
    provider: Seq<char>,
    source_lang: Seq<char>,
    target_lang: Seq<char>,
    texts: Seq<Seq<char>>,
) -> Seq<Seq<char>> {
    Seq::new(
        texts.len(),
        |i: int|
            {
                let k = cache_key(provider, source_lang, target_lang, texts[i]);
                if m.contains_key(k) {
                    m[k]
                } else {
                    Seq::empty()
                }
            },
    )
}

/// `slots` after writing the first `k` answers at the indices of the
/// pending lines, in order.
pub open spec fn fill_answers(
    slots: Seq<Seq<char>>,
    pending: Seq<(int, Seq<char>)>,
    answers: Seq<Seq<char>>,
    k: nat,
) -> Seq<Seq<char>>
    decreases k,
{
    if k == 0 {
        slots
    } else {
        fill_answers(slots, pending, answers, (k - 1) as nat).update(
            pending[k - 1].0,
            answers[k - 1],
        )
    }
}

/// Number of pending lines that got an answer.
pub open spec fn answered_count(pending_len: nat, answers_len: nat) -> nat {
    if pending_len <= answers_len {
        pending_len
    } else {
        answers_len
    }
}

/// The `(original, translation)` pairs of the pending lines that got an answer.
pub open spec fn answered_pairs(pending: Seq<(int, Seq<char>)>, answers: Seq<Seq<char>>) -> Seq<
    (Seq<char>, Seq<char>),
> {
    Seq::new(
        answered_count(pending.len(), answers.len()),
        |j: int| (pending[j].1, answers[j]),
    )
}

/// Indices strictly increasing, all below `n`.
pub open spec fn increasing_below(s: Seq<(int, Seq<char>)>, n: int) -> bool {
    &&& forall|j: int| 0 <= j < s.len() ==> 0 <= #[trigger] s[j].0 < n
    &&& forall|a: int, b: int| 0 <= a < b < s.len() ==> s[a].0 < s[b].0
}

/// The entries that `batch_found` lists: increasing indices, and every cached
/// text among them.
proof fn lemma_found_covers_hits(
    m: Map<Seq<char>, Seq<char>>,
    provider: Seq<char>,
    source_lang: Seq<char>,
    target_lang: Seq<char>,
    texts: Seq<Seq<char>>,
)
    ensures
        ({
            let f = batch_found(m, provider, source_lang, target_lang, texts);
            &&& increasing_below(f, texts.len() as int)
            &&& forall|j: int| #![trigger f[j]]
                0 <= j < f.len() ==> f[j].1 == m[cache_key(
                    provider,
                    source_lang,
                    target_lang,
                    texts[f[j].0],
                )]
            &&& forall|i: int|
                0 <= i < texts.len() && m.contains_key(
                    #[trigger] cache_key(provider, source_lang, target_lang, texts[i]),
                ) ==> exists|j: int| 0 <= j < f.len() && f[j].0 == i
        }),
    decreases texts.len(),
{
    crate::cache::law_batch_partition(m, provider, source_lang, target_lang, texts);
    if texts.len() > 0 {
        let p = texts.drop_last();
        lemma_found_covers_hits(m, provider, source_lang, target_lang, p);
        let f = batch_found(m, provider, source_lang, target_lang, texts);
        let fp = batch_found(m, provider, source_lang, target_lang, p);
        crate::cache::law_batch_partition(m, provider, source_lang, target_lang, p);
        assert forall|i: int|
            0 <= i < texts.len() && m.contains_key(
                #[trigger] cache_key(provider, source_lang, target_lang, texts[i]),
            ) implies exists|j: int| 0 <= j < f.len() && f[j].0 == i by {
            if i < p.len() {
                assert(texts[i] == p[i]);
                let j = choose|j: int| 0 <= j < fp.len() && fp[j].0 == i;
                assert(f[j] == fp[j]);
            } else {
                assert(f.last().0 == i);
            }
        }
    }
}

/// What the cache and the translation service produced for a capture: the
/// cleaned text of each line, its cached translation where there is one,
/// and the lines still to translate.
pub struct BatchPlan {
    texts: Vec<String>,
    translated: Vec<String>,
    pending: Vec<(usize, String)>,
}

impl BatchPlan {
    #[verifier::type_invariant]
    spec fn well_formed(self) -> bool {
        &&& self.translated@.len() == self.texts@.len()
        &&& increasing_below(indexed_views(self.pending@), self.texts@.len() as int)
    }

    /// The cleaned text of each line, in order.
    pub closed spec fn texts(self) -> Seq<Seq<char>> {
        string_views(self.texts@)
    }

    /// One slot per line: its translation so far.
    pub closed spec fn slots(self) -> Seq<Seq<char>> {
        string_views(self.translated@)
    }

    /// The lines to send to the translation service: index and text.
    pub closed spec fn pending(self) -> Seq<(int, Seq<char>)> {
        indexed_views(self.pending@)
    }

    /// The texts of the pending lines, in order (what is sent for translation).
    pub fn pending_texts(&self) -> (r: Vec<String>)
        ensures
            string_views(r@) == Seq::new(self.pending().len(), |j: int| self.pending()[j].1),
    {
        let mut r: Vec<String> = Vec::new();
        let mut j: usize = 0;
        while j < self.pending.len()
            invariant
                j <= self.pending@.len(),
                string_views(r@) == Seq::new(j as nat, |k: int| self.pending()[k].1),
            decreases self.pending@.len() - j,
        {
            let t = self.pending[j].1.clone();
            let ghost before = string_views(r@);
            r.push(t);
            assert(string_views(r@) =~= before.push(t@));
            j = j + 1;
            assert(string_views(r@) =~= Seq::new(j as nat, |k: int| self.pending()[k].1));
        }
        r
    }

    /// The cleaned texts of all lines, in order.
    pub fn line_texts(&self) -> (r: Vec<String>)
        ensures
            string_views(r@) == self.texts(),
    {
        let mut r: Vec<String> = Vec::new();
        let mut j: usize = 0;
        while j < self.texts.len()
            invariant
                j <= self.texts@.len(),
                string_views(r@) == string_views(self.texts@).take(j as int),
            decreases self.texts@.len() - j,
        {
            let t = self.texts[j].clone();
            let ghost before = string_views(r@);
            r.push(t);
            assert(string_views(r@) =~= before.push(t@));
            j = j + 1;
            assert(string_views(r@) =~= string_views(self.texts@).take(j as int));
        }
        assert(string_views(self.texts@).take(j as int) =~= string_views(self.texts@));
        r
    }
}

impl BatchPlan {
    /// Writes the service's answers, in order, into the slots of the pending
    /// lines (a pending line without an answer keeps its slot), stores every
    /// answered `(text, translation)` pair in the cache, and returns the
    /// translation of every line.
    pub fn complete(
        &self,
        answers: &[String],
        cache: &mut TranslationCache,
        provider: &str,
        source_lang: &str,
        target_lang: &str,
    ) -> (r: Vec<String>)
        ensures
            string_views(r@) == fill_answers(
                self.slots(),
                self.pending(),
                string_views(answers@),
                answered_count(self.pending().len(), answers@.len()),
            ),
            final(cache)@ == insert_pairs(
                old(cache)@,
                provider@,
                source_lang@,
                target_lang@,
                answered_pairs(self.pending(), string_views(answers@)),
            ),
            final(cache).persists() == old(cache).persists(),
    {
        proof {
            use_type_invariant(self);
        }
        let ghost av = string_views(answers@);
        let ghost pend = self.pending();
        let mut translated: Vec<String> = Vec::new();
        let mut k: usize = 0;
        while k < self.translated.len()
            invariant
                k <= self.translated@.len(),
                string_views(translated@) == string_views(self.translated@).take(k as int),
            decreases self.translated@.len() - k,
        {
            let t = self.translated[k].clone();
            let ghost before = string_views(translated@);
            translated.push(t);
            assert(string_views(translated@) =~= before.push(t@));
            k = k + 1;
        }
        assert(string_views(self.translated@).take(k as int) =~= string_views(self.translated@));
        let mut pairs: Vec<(String, String)> = Vec::new();
        let mut i: usize = 0;
        while i < self.pending.len()
            invariant
                i <= self.pending@.len(),
                av == string_views(answers@),
                pend == indexed_views(self.pending@),
                translated@.len() == self.texts@.len(),
                self.translated@.len() == self.texts@.len(),
                increasing_below(pend, self.texts@.len() as int),
                string_views(translated@) == fill_answers(
                    string_views(self.translated@),
                    pend,
                    av,
                    answered_count(i as nat, av.len()),
                ),
                pair_views(pairs@) == answered_pairs(pend.take(i as int), av),
            decreases self.pending@.len() - i,
        {
            if i < answers.len() {
                let idx = self.pending[i].0;
                assert(pend[i as int].0 == idx as int);
                let a = answers[i].clone();
                let ghost before = string_views(translated@);
                translated.set(idx, a);
                assert(string_views(translated@) =~= before.update(idx as int, a@));
                let t = self.pending[i].1.clone();
                let a2 = answers[i].clone();
                let ghost pbefore = pair_views(pairs@);
                pairs.push((t, a2));
                assert(pair_views(pairs@) =~= pbefore.push((t@, a2@)));
            }
            i = i + 1;
            assert(answered_pairs(pend.take(i as int), av) =~= if i - 1 < av.len() {
                answered_pairs(pend.take(i - 1), av).push((pend[i - 1].1, av[i - 1]))
            } else {
                answered_pairs(pend.take(i - 1), av)
            });
        }
        assert(pend.take(i as int) =~= pend);
        let slice = pairs.as_slice();
        assert(slice@ == pairs@);
        cache.set_batch(provider, source_lang, target_lang, slice);
        translated
    }
}

/// What `fill_answers` writes, when the pending indices increase: the `j`-th
/// answer at the `j`-th pending index, and elsewhere the slot unchanged.
pub proof fn lemma_fill_answers(
    slots: Seq<Seq<char>>,
    pending: Seq<(int, Seq<char>)>,
    answers: Seq<Seq<char>>,
    k: nat,
)
    requires
        increasing_below(pending, slots.len() as int),
        k <= pending.len(),
        k <= answers.len(),
    ensures
        fill_answers(slots, pending, answers, k).len() == slots.len(),
        forall|j: int|
            0 <= j < k ==> fill_answers(slots, pending, answers, k)[#[trigger] pending[j].0]
                == answers[j],
        forall|x: int|
            0 <= x < slots.len() && (forall|j: int| 0 <= j < k ==> #[trigger] pending[j].0 != x)
                ==> fill_answers(slots, pending, answers, k)[x] == slots[x],
    decreases k,
{
    if k > 0 {
        lemma_fill_answers(slots, pending, answers, (k - 1) as nat);
        let prev = fill_answers(slots, pending, answers, (k - 1) as nat);
        assert forall|j: int|
            0 <= j < k implies fill_answers(slots, pending, answers, k)[#[trigger] pending[j].0]
            == answers[j] by {
            if j < k - 1 {
                assert(pending[j].0 < pending[k - 1].0);
            }
        }
        assert forall|x: int|
            0 <= x < slots.len() && (forall|j: int| 0 <= j < k ==> #[trigger] pending[j].0 != x)
            implies fill_answers(slots, pending, answers, k)[x] == slots[x] by {
            assert(pending[k - 1].0 != x);
            assert forall|j: int| 0 <= j < k - 1 implies #[trigger] pending[j].0 != x by {}
        }
    }
}

/// The translations of a capture: a line whose text was cached gets the cached
/// translation; the `j`-th line sent to the service gets the `j`-th answer, or
/// stays empty when the service gave fewer answers.
pub proof fn law_batch_result(
    m: Map<Seq<char>, Seq<char>>,
    provider: Seq<char>,
    source_lang: Seq<char>,
    target_lang: Seq<char>,
    texts: Seq<Seq<char>>,
    answers: Seq<Seq<char>>,
)
    ensures
        ({
            let pending = batch_missing(m, provider, source_lang, target_lang, texts);
            let r = fill_answers(
                cached_slots(m, provider, source_lang, target_lang, texts),
                pending,
                answers,
                answered_count(pending.len(), answers.len()),
            );
            &&& r.len() == texts.len()
            &&& forall|i: int|
                0 <= i < texts.len() && m.contains_key(
                    #[trigger] cache_key(provider, source_lang, target_lang, texts[i]),
                ) ==> r[i] == m[cache_key(provider, source_lang, target_lang, texts[i])]
            &&& forall|j: int|
                0 <= j < pending.len() ==> r[#[trigger] pending[j].0] == if j < answers.len() {
                    answers[j]
                } else {
                    Seq::<char>::empty()
                }
        }),
{
    let pending = batch_missing(m, provider, source_lang, target_lang, texts);
    let slots = cached_slots(m, provider, source_lang, target_lang, texts);
    let k = answered_count(pending.len(), answers.len());
    crate::cache::law_batch_partition(m, provider, source_lang, target_lang, texts);
    lemma_missing_increasing(m, provider, source_lang, target_lang, texts);
    lemma_fill_answers(slots, pending, answers, k);
    let r = fill_answers(slots, pending, answers, k);
    assert forall|i: int|
        0 <= i < texts.len() && m.contains_key(
            #[trigger] cache_key(provider, source_lang, target_lang, texts[i]),
        ) implies r[i] == m[cache_key(provider, source_lang, target_lang, texts[i])] by {
        assert forall|j: int| 0 <= j < k implies #[trigger] pending[j].0 != i by {}
        assert(r[i] == slots[i]);
    }
    assert forall|j: int| 0 <= j < pending.len() implies r[#[trigger] pending[j].0] == if j
        < answers.len() {
        answers[j]
    } else {
        Seq::<char>::empty()
    } by {
        let x = pending[j].0;
        if j >= k {
            assert forall|jj: int| 0 <= jj < k implies #[trigger] pending[jj].0 != x by {
                assert(pending[jj].0 < pending[j].0);
            }
            assert(r[x] == slots[x]);
            assert(!m.contains_key(cache_key(provider, source_lang, target_lang, texts[x])));
        }
    }
}

/// Cleans the captured lines and looks them up in the cache: the result holds
/// the cleaned texts, the cached translation of each (empty where there is
/// none) and, in order, the lines that still need translating.
pub fn plan_translation_batch(
    cache: &TranslationCache,
    provider: &str,
    source_lang: &str,
    target_lang: &str,
    lines: &[String],
) -> (r: BatchPlan)
    ensures
        r.texts() == clean_all(string_views(lines@)),
        r.slots() == cached_slots(cache@, provider@, source_lang@, target_lang@, r.texts()),
        r.pending() == batch_missing(cache@, provider@, source_lang@, target_lang@, r.texts()),
{
    let mut texts: Vec<String> = Vec::new();
    let mut i: usize = 0;
    while i < lines.len()
        invariant
            i <= lines@.len(),
            string_views(texts@) == clean_all(string_views(lines@)).take(i as int),
        decreases lines@.len() - i,
    {
        let t = clean_ocr_text(lines[i].as_str());
        let ghost before = string_views(texts@);
        texts.push(t);
        assert(string_views(texts@) =~= before.push(t@));
        i = i + 1;
        assert(string_views(texts@) =~= clean_all(string_views(lines@)).take(i as int));
    }
    assert(clean_all(string_views(lines@)).take(i as int) =~= clean_all(string_views(lines@)));
    let ghost tv = string_views(texts@);
    let slice = texts.as_slice();
    let (found, missing) = cache.get_batch(provider, source_lang, target_lang, slice);
    assert(slice@ == texts@);
    let ghost f = batch_found(cache@, provider@, source_lang@, target_lang@, tv);
    let ghost want = cached_slots(cache@, provider@, source_lang@, target_lang@, tv);
    proof {
        lemma_found_covers_hits(cache@, provider@, source_lang@, target_lang@, tv);
        crate::cache::law_batch_partition(cache@, provider@, source_lang@, target_lang@, tv);
    }
    let n = texts.len();
    let mut translated: Vec<String> = Vec::new();
    let mut k: usize = 0;
    while k < n
        invariant
            k <= n,
            n == tv.len(),
            translated@.len() == k,
            forall|a: int| 0 <= a < k ==> (#[trigger] translated@[a])@ == Seq::<char>::empty(),
        decreases n - k,
    {
        translated.push(String::new());
        k = k + 1;
    }
    let mut j: usize = 0;
    while j < found.len()
        invariant
            j <= found@.len(),
            indexed_views(found@) == f,
            want == cached_slots(cache@, provider@, source_lang@, target_lang@, tv),
            n == tv.len(),
            translated@.len() == n,
            increasing_below(f, n as int),
            forall|jj: int| #![trigger f[jj]]
                0 <= jj < f.len() ==> f[jj].1 == cache@[cache_key(
                    provider@,
                    source_lang@,
                    target_lang@,
                    tv[f[jj].0],
                )] && cache@.contains_key(cache_key(provider@, source_lang@, target_lang@, tv[f[jj].0])),
            forall|a: int|
                0 <= a < n && cache@.contains_key(
                    #[trigger] cache_key(provider@, source_lang@, target_lang@, tv[a]),
                ) ==> exists|jj: int| 0 <= jj < f.len() && f[jj].0 == a,
            forall|a: int|
                0 <= a < n ==> (#[trigger] translated@[a])@ == if (j < f.len() ==> a < f[j as int].0)
                    && cache@.contains_key(cache_key(provider@, source_lang@, target_lang@, tv[a])) {
                    want[a]
                } else {
                    Seq::<char>::empty()
                },
        decreases found@.len() - j,
    {
        let idx = found[j].0;
        assert(f[j as int].0 == idx as int);
        let t = found[j].1.clone();
        let ghost old_tr = translated@;
        let ghost old_j = j as int;
        translated.set(idx, t);
        j = j + 1;
        proof {
            assert forall|a: int| 0 <= a < n implies (#[trigger] translated@[a])@ == if (j < f.len()
                ==> a < f[j as int].0) && cache@.contains_key(
                cache_key(provider@, source_lang@, target_lang@, tv[a]),
            ) {
                want[a]
            } else {
                Seq::<char>::empty()
            } by {
                let hit = cache@.contains_key(cache_key(provider@, source_lang@, target_lang@, tv[a]));
                assert(old_tr[a]@ == if (old_j < f.len() ==> a < f[old_j].0) && hit {
                    want[a]
                } else {
                    Seq::<char>::empty()
                });
                if a == idx as int {
                    assert(f[j - 1].1 == cache@[cache_key(provider@, source_lang@, target_lang@, tv[f[j - 1].0])]);
                    if j < f.len() {
                        assert(f[j - 1].0 < f[j as int].0);
                    }
                } else if hit && idx < a {
                    let jj = choose|jj: int| 0 <= jj < f.len() && f[jj].0 == a;
                    if jj < j - 1 {
                        assert(f[jj].0 < f[j - 1].0);
                    } else if jj >= j {
                        if jj > j {
                            assert(f[j as int].0 < f[jj].0);
                        }
                    }
                } else if hit && a < idx {
                    if j < f.len() {
                        assert(f[j - 1].0 < f[j as int].0);
                    }
                }
            }
        }
    }
    proof {
        assert forall|a: int| 0 <= a < n implies (#[trigger] translated@[a])@ == want[a] by {}
        assert(string_views(translated@) =~= want);
        crate::cache::law_batch_partition(cache@, provider@, source_lang@, target_lang@, tv);
        assert forall|jj: int| 0 <= jj < missing@.len() implies 0 <= #[trigger] indexed_views(
            missing@,
        )[jj].0 < n by {}
        lemma_missing_increasing(cache@, provider@, source_lang@, target_lang@, tv);
    }
    BatchPlan { texts, translated, pending: missing }
}

/// `batch_missing` lists increasing indices.
proof fn lemma_missing_increasing(
    m: Map<Seq<char>, Seq<char>>,
    provider: Seq<char>,
    source_lang: Seq<char>,
    target_lang: Seq<char>,
    texts: Seq<Seq<char>>,
)
    ensures
        increasing_below(
            batch_missing(m, provider, source_lang, target_lang, texts),
            texts.len() as int,
        ),
    decreases texts.len(),
{
    crate::cache::law_batch_partition(m, provider, source_lang, target_lang, texts);
    if texts.len() > 0 {
        let p = texts.drop_last();
        lemma_missing_increasing(m, provider, source_lang, target_lang, p);
        crate::cache::law_batch_partition(m, provider, source_lang, target_lang, p);
    }
}

// ---------------------------------------------------------------------------
// Where a capture is shown
// ---------------------------------------------------------------------------

/// The region and mode a capture is shown with: the configured region for a
/// region capture, the overlay's area for a full-screen capture, and `None`
/// for an action that captures nothing.
pub fn capture_target(action: HotkeyAction, region: &CaptureRegion, overlay: &OverlayConfig) -> (r:
    Option<(CaptureRegion, CaptureMode)>)
    ensures
        r == match action {
            HotkeyAction::TranslateRegion => Some((*region, CaptureMode::Region)),
            HotkeyAction::TranslateFullScreen => Some(
                (
                    CaptureRegion {
                        x: overlay.x,
                        y: overlay.y,
                        width: overlay.width,
                        height: overlay.height,
                    },
                    CaptureMode::FullScreen,
                ),
            ),
            _ => None,
        },
{
    match action {
        HotkeyAction::TranslateRegion => Some(
            (
                CaptureRegion { x: region.x, y: region.y, width: region.width, height: region.height },
                CaptureMode::Region,
            ),
        ),
        HotkeyAction::TranslateFullScreen => Some(
            (
                CaptureRegion {
                    x: overlay.x,
                    y: overlay.y,
                    width: overlay.width,
                    height: overlay.height,
                },
                CaptureMode::FullScreen,
            ),
        ),
        _ => None,
    }
}

/// Offset added to the positions found in a capture to place them on the
/// screen: the region's corner for a region capture, none otherwise.
pub fn capture_offset(action: HotkeyAction, region_x: u32, region_y: u32) -> (r: (u32, u32))
    ensures
        r == if action == HotkeyAction::TranslateRegion {
            (region_x, region_y)
        } else {
            (0u32, 0u32)
        },
{
    match action {
        HotkeyAction::TranslateRegion => (region_x, region_y),
        _ => (0, 0),
    }
}

/// Whether a region lies within a screen of the given size (computed
/// without overflow).
pub fn region_within_screen(
    x: u32,
    y: u32,
    width: u32,
    height: u32,
    screen_width: u32,
    screen_height: u32,
) -> (r: bool)
    ensures
        r == (x + width <= screen_width && y + height <= screen_height),
{
    (x as u64) + (width as u64) <= screen_width as u64 && (y as u64) + (height as u64)
        <= screen_height as u64
}

// ---------------------------------------------------------------------------
// Subtitles
// ---------------------------------------------------------------------------

/// The previous subtitles given to OpenAI as context: with provider "openai"
/// and a positive count, the translations of the last `context_lines` entries
/// of the history (all of them when there are fewer), oldest first; otherwise
/// none.
pub open spec fn context_spec(history: Seq<SubtitleEntry>, provider: Seq<char>, context_lines: u32) -> Seq<
    Seq<char>,
> {
    if provider == "openai"@ && context_lines > 0 {
        keep_last(entry_texts(history), context_lines as nat)
    } else {
        Seq::empty()
    }
}

/// The context lines for translating a subtitle (see `context_spec`).
pub fn subtitle_context(history: &[SubtitleEntry], provider: &str, context_lines: u32) -> (r: Vec<
    String,
>)
    ensures
        string_views(r@) == context_spec(history@, provider@, context_lines),
{
    let p = chars_of(provider);
    let mut r: Vec<String> = Vec::new();
    if !(is_literal(&p, "openai") && context_lines > 0) {
        assert(string_views(r@) =~= Seq::<Seq<char>>::empty());
        return r;
    }
    let ghost all = entry_texts(history@);
    let n = history.len();
    let keep: usize = if (context_lines as u64) < (n as u64) {
        context_lines as usize
    } else {
        n
    };
    let start = n - keep;
    let mut i: usize = start;
    while i < n
        invariant
            start <= i <= n,
            n == history@.len(),
            all == entry_texts(history@),
            string_views(r@) == all.subrange(start as int, i as int),
        decreases n - i,
    {
        let t = history[i].translated.clone();
        let ghost before = string_views(r@);
        r.push(t);
        assert(string_views(r@) =~= before.push(t@));
        i = i + 1;
        assert(string_views(r@) =~= all.subrange(start as int, i as int));
    }
    assert(all.subrange(start as int, n as int) =~= keep_last(all, context_lines as nat));
    r
}

/// Shows the cached translation of a subtitle, if there is one: returns
/// whether the cache had it, and then appends it to the history.
pub fn take_cached_subtitle(
    cache: &TranslationCache,
    subtitles: &mut SubtitleState,
    provider: &str,
    source_lang: &str,
    target_lang: &str,
    text: &str,
) -> (hit: bool)
    ensures
        ({
            let k = cache_key(provider@, source_lang@, target_lang@, text@);
            &&& hit == cache@.contains_key(k)
            &&& hit ==> {
                &&& final(subtitles).history().len() > 0
                &&& final(subtitles).history().last().translated@ == cache@[k]
                &&& final(subtitles).history() == keep_last(
                    old(subtitles).history().push(final(subtitles).history().last()),
                    MAX_SUBTITLE_HISTORY as nat,
                )
            }
            &&& !hit ==> final(subtitles).history() == old(subtitles).history()
            &&& final(subtitles).last_confirmed() == old(subtitles).last_confirmed()
            &&& final(subtitles).candidate() == old(subtitles).candidate()
        }),
{
    match cache.get(provider, source_lang, target_lang, text) {
        Some(t) => {
            subtitles.add_translated_subtitle(t);
            true
        },
        None => false,
    }
}

/// Keeps the service's translation of a subtitle: with at least one answer,
/// the first is cached for `text` and appended to the history; with none,
/// nothing changes.
pub fn record_subtitle_translation(
    cache: &mut TranslationCache,
    subtitles: &mut SubtitleState,
    provider: &str,
    source_lang: &str,
    target_lang: &str,
    text: &str,
    answers: &[String],
)
    ensures
        answers@.len() == 0 ==> final(cache)@ == old(cache)@ && final(subtitles).history()
            == old(subtitles).history(),
        answers@.len() > 0 ==> {
            &&& final(cache)@ == old(cache)@.insert(
                cache_key(provider@, source_lang@, target_lang@, text@),
                answers@[0]@,
            )
            &&& final(subtitles).history().len() > 0
            &&& final(subtitles).history().last().translated@ == answers@[0]@
            &&& final(subtitles).history() == keep_last(
                old(subtitles).history().push(final(subtitles).history().last()),
                MAX_SUBTITLE_HISTORY as nat,
            )
        },
        final(cache).persists() == old(cache).persists(),
        final(subtitles).last_confirmed() == old(subtitles).last_confirmed(),
        final(subtitles).candidate() == old(subtitles).candidate(),
{
    if answers.len() > 0 {
        let first = &answers[0];
        cache.set(provider, source_lang, target_lang, text, first.as_str());
        subtitles.add_translated_subtitle(first.clone());
    }
}

// ---------------------------------------------------------------------------
// Speech
// ---------------------------------------------------------------------------

/// Whether the translations are spoken: speech is on in the settings and
/// both the ElevenLabs key and voice are set.
pub fn speech_enabled(tts_enabled: bool, api_key: &str, voice_id: &str) -> (r: bool)
    ensures
        r == (tts_enabled && api_key@.len() > 0 && voice_id@.len() > 0),
{
    tts_enabled && !api_key.is_empty() && !voice_id.is_empty()
}

/// The non-empty texts of a list, in order.
pub open spec fn non_empty(s: Seq<Seq<char>>) -> Seq<Seq<char>>
    decreases s.len(),
{
    if s.len() == 0 {
        s
    } else if s.last().len() == 0 {
        non_empty(s.drop_last())
    } else {
        non_empty(s.drop_last()).push(s.last())
    }
}

/// The text spoken for a capture: the non-empty translations joined by spaces.
pub fn speech_text(translated: &[String]) -> (r: String)
    ensures
        r@ == join_spec(non_empty(string_views(translated@)), seq![' ']),
{
    let ghost tv = string_views(translated@);
    let mut r = String::new();
    let mut any = false;
    let mut i: usize = 0;
    while i < translated.len()
        invariant
            i <= translated@.len(),
            tv == string_views(translated@),
            any == (non_empty(tv.take(i as int)).len() > 0),
            r@ == join_spec(non_empty(tv.take(i as int)), seq![' ']),
        decreases translated@.len() - i,
    {
        let t = &translated[i];
        proof {
            assert(tv.take(i + 1).drop_last() =~= tv.take(i as int));
            assert(tv.take(i + 1).last() == t@);
        }
        if !t.as_str().is_empty() {
            if any {
                crate::text::push_char(&mut r, ' ');
            }
            r.append(t.as_str());
            proof {
                let prev = non_empty(tv.take(i as int));
                assert(non_empty(tv.take(i + 1)) == prev.push(t@));
                if prev.len() > 0 {
                    assert(prev.push(t@).drop_last() =~= prev);
                } else {
                    assert(prev.push(t@) =~= seq![t@]);
                }
            }
            any = true;
        }
        i = i + 1;
    }
    assert(tv.take(i as int) =~= tv);
    r
}

} // verus!
