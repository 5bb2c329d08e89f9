//! Voice activity detection.
//!
//! A window of samples is cut into frames of 20 ms. Frames whose level is well
//! above an adaptive noise floor are loud; short bursts are dropped, short
//! pauses are filled, and what is left becomes spans of speech.
//!
//! Levels are logarithms of sums of squares. Those sums, logarithms and the
//! addition of the threshold are handed in by the caller as [`Acoustics`]; the
//! decisions made with them are here.

use vstd::prelude::*;
use crate::num::Single;
use crate::settings::VadSettings;

verus! {

/// Sampling rate of all audio in the library.
pub const RATE: u32 = 16_000;

/// Samples in one frame of 20 ms.
pub const FRAME: usize = 320;

/// Bit pattern of -55 dB: a frame that is not louder is never speech.
pub const ABSOLUTE_SILENCE_DB: u32 = 0xc25c_0000;

/// Bit pattern of -70 dB, the lowest noise floor.
pub const LOWEST_FLOOR_DB: u32 = 0xc28c_0000;

/// Bit pattern of -12 dB, the highest noise floor.
pub const HIGHEST_FLOOR_DB: u32 = 0xc140_0000;

/// A span of speech in milliseconds, relative to the start of the window.
#[derive(Clone, Copy, Debug, PartialEq, Eq, Structural)]
pub struct SpeechSpan {
    pub start_ms: i64,
    pub end_ms: i64,
}

/// Level statistics of a frame.
#[derive(Clone, Copy, Debug, PartialEq, Eq, Structural)]
pub struct FrameEnergy {
    pub rms: Single,
    pub peak: Single,
    pub db: Single,
}

impl SpeechSpan {
    pub fn duration_ms(&self) -> (r: i64)
        requires
            i64::MIN <= self.end_ms - self.start_ms <= i64::MAX,
        ensures
            r == if self.end_ms >= self.start_ms {
                self.end_ms - self.start_ms
            } else {
                0
            },
    {
        let d: i64 = self.end_ms - self.start_ms;
        if d < 0 {
            0
        } else {
            d
        }
    }
}

/// The floating point arithmetic that detection and segmentation rest on.
pub struct Acoustics<L, P, S, E> {
    /// Level of some samples in decibels.
    pub level: L,
    /// Noise floor suggested by the levels of a window.
    pub floor: P,
    /// Sum of two numbers.
    pub sum: S,
    /// Sum of the squares of some samples.
    pub energy: E,
}

impl<L, P, S, E> Acoustics<L, P, S, E> where
    L: Fn(&[Single]) -> Single,
    P: Fn(&[Single]) -> Single,
    S: Fn(Single, Single) -> Single,
    E: Fn(&[Single]) -> crate::num::Double,
 {
    /// Each operation is defined everywhere.
    pub open spec fn total(&self) -> bool {
        &&& forall|s: &[Single]| call_requires(self.level, (s,))
        &&& forall|s: &[Single]| call_requires(self.floor, (s,))
        &&& forall|a: Single, b: Single| call_requires(self.sum, (a, b))
        &&& forall|s: &[Single]| call_requires(self.energy, (s,))
    }

    /// `r` is what the level of `samples` came out as.
    pub open spec fn level_is(&self, samples: Seq<Single>, r: Single) -> bool {
        exists|s: &[Single]| s@ == samples && #[trigger] call_ensures(self.level, (s,), r)
    }

    /// `r` is what the floor for `levels` came out as.
    pub open spec fn floor_is(&self, levels: Seq<Single>, r: Single) -> bool {
        exists|s: &[Single]| s@ == levels && #[trigger] call_ensures(self.floor, (s,), r)
    }

    /// `r` is what `a + b` came out as.
    pub open spec fn sum_is(&self, a: Single, b: Single, r: Single) -> bool {
        call_ensures(self.sum, (a, b), r)
    }

    /// `r` is what the energy of `samples` came out as.
    pub open spec fn energy_is(&self, samples: Seq<Single>, r: crate::num::Double) -> bool {
        exists|s: &[Single]| s@ == samples && #[trigger] call_ensures(self.energy, (s,), r)
    }
}

// ---------------------------------------------------------------------------
// Noise floor
// ---------------------------------------------------------------------------

/// The adaptive noise floor: estimated anew between utterances, frozen while
/// someone speaks, since speech without a pause would otherwise raise the floor
/// to its own level.
#[derive(Clone, Copy, Debug)]
pub struct EnergyState {
    pub noise_db: Option<Single>,
}

/// An estimate forced into the range of noise floors.
pub open spec fn floor_from(estimate: Single) -> Single {
    estimate.clamped(Single { bits: LOWEST_FLOOR_DB }, Single { bits: HIGHEST_FLOOR_DB })
}

impl EnergyState {
    pub open spec fn floor(self) -> Single {
        match self.noise_db {
            Some(db) => db,
            None => Single { bits: LOWEST_FLOOR_DB },
        }
    }

    /// An established floor is in range.
    pub open spec fn wf(self) -> bool {
        self.noise_db is Some ==> self.noise_db->0.within(
            Single { bits: LOWEST_FLOOR_DB },
            Single { bits: HIGHEST_FLOOR_DB },
        )
    }

    pub fn new() -> (r: EnergyState)
        ensures
            r.noise_db is None,
            r.wf(),
    {
        EnergyState { noise_db: None }
    }

    /// Whether a floor has been established.
    pub fn is_ready(&self) -> (r: bool)
        ensures
            r == (self.noise_db is Some),
    {
        self.noise_db.is_some()
    }

    pub fn noise_db(&self) -> (r: Single)
        ensures
            r == self.floor(),
    {
        match self.noise_db {
            Some(db) => db,
            None => Single { bits: LOWEST_FLOOR_DB },
        }
    }

    /// Takes a new estimate, forced into range.
    pub fn observe(&mut self, percentile_seed: Single)
        ensures
            final(self).noise_db == Some(floor_from(percentile_seed)),
            final(self).wf(),
    {
        self.noise_db = Some(
            percentile_seed.clamp(
                Single { bits: LOWEST_FLOOR_DB },
                Single { bits: HIGHEST_FLOOR_DB },
            ),
        );
    }
}

// ---------------------------------------------------------------------------
// Runs of equal flags
// ---------------------------------------------------------------------------

/// Where the maximal run of equal flags around `i` begins.
pub open spec fn run_start(f: Seq<bool>, i: int) -> int
    decreases i,
{
    if i > 0 && f[i - 1] == f[i] {
        run_start(f, i - 1)
    } else {
        i
    }
}

/// Where the maximal run of equal flags around `i` ends (exclusive).
pub open spec fn run_end(f: Seq<bool>, i: int) -> int
    decreases f.len() - i,
{
    if i + 1 < f.len() && f[i + 1] == f[i] {
        run_end(f, i + 1)
    } else {
        i + 1
    }
}

/// Length of the maximal run around `i`.
pub open spec fn run_len(f: Seq<bool>, i: int) -> int {
    run_end(f, i) - run_start(f, i)
}

/// A maximal run of `f` from `a` to `b` (exclusive).
pub open spec fn maximal_run(f: Seq<bool>, a: int, b: int) -> bool {
    &&& 0 <= a < b <= f.len()
    &&& forall|k: int| a <= k < b ==> f[k] == f[a]
    &&& a > 0 ==> f[a - 1] != f[a]
    &&& b < f.len() ==> f[b] != f[a]
}

/// In a maximal run every position has the run's bounds.
pub proof fn lemma_run(f: Seq<bool>, a: int, b: int, i: int)
    requires
        maximal_run(f, a, b),
        a <= i < b,
    ensures
        run_start(f, i) == a,
        run_end(f, i) == b,
{
    lemma_run_start(f, a, b, i);
    lemma_run_end(f, a, b, i);
}

proof fn lemma_run_start(f: Seq<bool>, a: int, b: int, i: int)
    requires
        maximal_run(f, a, b),
        a <= i < b,
    ensures
        run_start(f, i) == a,
    decreases i,
{
    if i > a {
        lemma_run_start(f, a, b, i - 1);
    }
}

proof fn lemma_run_end(f: Seq<bool>, a: int, b: int, i: int)
    requires
        maximal_run(f, a, b),
        a <= i < b,
    ensures
        run_end(f, i) == b,
    decreases b - i,
{
    if i + 1 < b {
        lemma_run_end(f, a, b, i + 1);
    }
}

/// Every position lies in the maximal run that [`run_start`] and [`run_end`] give.
pub proof fn lemma_run_bounds(f: Seq<bool>, i: int)
    requires
        0 <= i < f.len(),
    ensures
        run_start(f, i) <= i < run_end(f, i),
        maximal_run(f, run_start(f, i), run_end(f, i)),
{
    lemma_run_start_bounds(f, i);
    lemma_run_end_bounds(f, i);
}

proof fn lemma_run_start_bounds(f: Seq<bool>, i: int)
    requires
        0 <= i < f.len(),
    ensures
        0 <= run_start(f, i) <= i,
        forall|k: int| run_start(f, i) <= k <= i ==> f[k] == f[i],
        run_start(f, i) > 0 ==> f[run_start(f, i) - 1] != f[i],
    decreases i,
{
    if i > 0 && f[i - 1] == f[i] {
        lemma_run_start_bounds(f, i - 1);
    }
}

pub proof fn lemma_run_end_bounds(f: Seq<bool>, i: int)
    requires
        0 <= i < f.len(),
    ensures
        i < run_end(f, i) <= f.len(),
        forall|k: int| i <= k < run_end(f, i) ==> f[k] == f[i],
        run_end(f, i) < f.len() ==> f[run_end(f, i)] != f[i],
    decreases f.len() - i,
{
    if i + 1 < f.len() && f[i + 1] == f[i] {
        lemma_run_end_bounds(f, i + 1);
    }
}

fn end_of_run(f: &Vec<bool>, start: usize) -> (end: usize)
    requires
        start < f@.len(),
    ensures
        start < end <= f@.len(),
        forall|k: int| start <= k < end ==> f@[k] == f@[start as int],
        end < f@.len() ==> f@[end as int] != f@[start as int],
{
    let v: bool = f[start];
    let n: usize = f.len();
    let mut i: usize = start + 1;
    while i < n && f[i] == v
        invariant
            start < i <= n == f@.len(),
            v == f@[start as int],
            forall|k: int| start <= k < i ==> f@[k] == v,
        decreases n - i,
    {
        i += 1;
    }
    i
}

/// `f` with the runs of `target` shorter than `min_len` turned over.
pub open spec fn short_runs_removed(f: Seq<bool>, min_len: int, target: bool) -> Seq<bool> {
    Seq::new(
        f.len(),
        |i: int|
            if f[i] == target && run_len(f, i) < min_len {
                !target
            } else {
                f[i]
            },
    )
}

/// Turns over the runs of `target` shorter than `min_len`.
pub fn remove_short_runs(flags: &Vec<bool>, min_len: usize, target: bool) -> (r: Vec<bool>)
    ensures
        r@ == short_runs_removed(flags@, min_len as int, target),
{
    let n: usize = flags.len();
    let mut out: Vec<bool> = Vec::new();
    let mut i: usize = 0;
    while i < n
        invariant
            i <= n == flags@.len(),
            out@.len() == i,
            0 < i < n ==> flags@[i - 1] != flags@[i as int],
            forall|k: int|
                0 <= k < i ==> out@[k] == short_runs_removed(flags@, min_len as int, target)[k],
        decreases n - i,
    {
        let end = end_of_run(flags, i);
        let v: bool = flags[i];
        let kept: bool = if v == target && end - i < min_len {
            !target
        } else {
            v
        };
        let mut k: usize = i;
        while k < end
            invariant
                i <= k <= end <= n == flags@.len(),
                maximal_run(flags@, i as int, end as int),
                v == flags@[i as int],
                kept == if v == target && end - i < min_len {
                    !target
                } else {
                    v
                },
                out@.len() == k,
                forall|j: int|
                    0 <= j < k ==> out@[j] == short_runs_removed(flags@, min_len as int, target)[j],
            decreases end - k,
        {
            proof {
                lemma_run(flags@, i as int, end as int, k as int);
            }
            out.push(kept);
            k += 1;
        }
        i = end;
    }
    assert(out@ =~= short_runs_removed(flags@, min_len as int, target));
    out
}

/// `f` with silences shorter than `min_len` filled where speech stands on both
/// sides of them; silence at either end of the window stays.
pub open spec fn silences_merged(f: Seq<bool>, min_len: int) -> Seq<bool> {
    Seq::new(
        f.len(),
        |i: int|
            f[i] || (run_start(f, i) > 0 && run_end(f, i) < f.len() && run_len(f, i) < min_len),
    )
}

/// Fills short silences between speech.
pub fn merge_internal_silences(flags: &Vec<bool>, min_len: usize) -> (r: Vec<bool>)
    ensures
        r@ == silences_merged(flags@, min_len as int),
{
    let n: usize = flags.len();
    let mut out: Vec<bool> = Vec::new();
    let mut i: usize = 0;
    while i < n
        invariant
            i <= n == flags@.len(),
            out@.len() == i,
            0 < i < n ==> flags@[i - 1] != flags@[i as int],
            forall|k: int| 0 <= k < i ==> out@[k] == silences_merged(flags@, min_len as int)[k],
        decreases n - i,
    {
        let end = end_of_run(flags, i);
        let v: bool = flags[i];
        let kept: bool = v || (i > 0 && end < n && end - i < min_len);
        let mut k: usize = i;
        while k < end
            invariant
                i <= k <= end <= n == flags@.len(),
                maximal_run(flags@, i as int, end as int),
                v == flags@[i as int],
                kept == (v || (i > 0 && end < n && end - i < min_len)),
                out@.len() == k,
                forall|j: int| 0 <= j < k ==> out@[j] == silences_merged(flags@, min_len as int)[j],
            decreases end - k,
        {
            proof {
                lemma_run(flags@, i as int, end as int, k as int);
            }
            out.push(kept);
            k += 1;
        }
        i = end;
    }
    assert(out@ =~= silences_merged(flags@, min_len as int));
    out
}

// ---------------------------------------------------------------------------
// Spans
// ---------------------------------------------------------------------------

/// The maximal runs of set flags from position `i` on, as bounds (the second
/// exclusive), in order.
pub open spec fn loud_runs(f: Seq<bool>, i: int) -> Seq<(int, int)>
    decreases f.len() - i,
{
    if i < 0 || i >= f.len() {
        Seq::empty()
    } else if f[i] {
        let e = run_end(f, i);
        proof {
            lemma_run_end_bounds(f, i);
        }
        seq![(i, e)] + loud_runs(f, e)
    } else {
        loud_runs(f, i + 1)
    }
}

/// The span of a run of frames, `pad` frames wider on both sides as far as the
/// window of `n` frames reaches.
pub open spec fn padded_span(run: (int, int), pad: int, n: int) -> SpeechSpan {
    let start = if run.0 >= pad {
        run.0 - pad
    } else {
        0
    };
    let end = if run.1 + pad <= n {
        run.1 + pad
    } else {
        n
    };
    SpeechSpan { start_ms: (start * 20) as i64, end_ms: (end * 20) as i64 }
}

/// The padded spans of the runs of set flags.
pub open spec fn padded_spans(f: Seq<bool>, pad: int) -> Seq<SpeechSpan> {
    loud_runs(f, 0).map_values(|run: (int, int)| padded_span(run, pad, f.len() as int))
}

/// The spans of the runs of set flags, widened by `pad` frames.
pub fn spans_of_flags(flags: &Vec<bool>, pad: usize) -> (r: Vec<SpeechSpan>)
    requires
        flags@.len() * 20 <= i64::MAX,
    ensures
        r@ == padded_spans(flags@, pad as int),
{
    let n: usize = flags.len();
    let mut out: Vec<SpeechSpan> = Vec::new();
    let ghost all = loud_runs(flags@, 0);
    let ghost mut done: Seq<(int, int)> = Seq::empty();
    let mut i: usize = 0;
    proof {
        assert(done + loud_runs(flags@, 0) =~= all);
    }
    while i < n
        invariant
            i <= n == flags@.len(),
            n * 20 <= i64::MAX,
            0 < i < n && flags@[i as int] ==> !flags@[i - 1],
            all == loud_runs(flags@, 0),
            done + loud_runs(flags@, i as int) == all,
            out@ == done.map_values(|run: (int, int)| padded_span(run, pad as int, n as int)),
        decreases n - i,
    {
        if flags[i] {
            let end = end_of_run(flags, i);
            proof {
                lemma_run_end_bounds(flags@, i as int);
                lemma_run(flags@, i as int, end as int, i as int);
                let run = (i as int, end as int);
                assert(done + (seq![run] + loud_runs(flags@, end as int)) =~= done.push(run)
                    + loud_runs(flags@, end as int));
                done = done.push(run);
            }
            let start: usize = if i >= pad {
                i - pad
            } else {
                0
            };
            let stop: usize = if pad <= n - end {
                end + pad
            } else {
                n
            };
            out.push(SpeechSpan { start_ms: start as i64 * 20, end_ms: stop as i64 * 20 });
            proof {
                assert(out@ =~= done.map_values(
                    |run: (int, int)| padded_span(run, pad as int, n as int),
                ));
            }
            i = end;
        } else {
            i += 1;
        }
    }
    proof {
        assert(done + loud_runs(flags@, i as int) =~= done);
    }
    out
}

/// Spans moved apart: none begins before its predecessor ends, and none ends
/// before it begins.
pub open spec fn overlaps_clamped(s: Seq<SpeechSpan>) -> Seq<SpeechSpan>
    decreases s.len(),
{
    if s.len() <= 1 {
        s
    } else {
        let before = overlaps_clamped(s.drop_last());
        let start = if s.last().start_ms < before.last().end_ms {
            before.last().end_ms
        } else {
            s.last().start_ms
        };
        let end = if s.last().end_ms < start {
            start
        } else {
            s.last().end_ms
        };
        before.push(SpeechSpan { start_ms: start, end_ms: end })
    }
}

/// Moves overlapping spans apart. Padding widens each span on its own, so two
/// spans close together may come to overlap, which would count speech twice.
pub fn clamp_overlaps(spans: &Vec<SpeechSpan>) -> (r: Vec<SpeechSpan>)
    ensures
        r@ == overlaps_clamped(spans@),
{
    let n: usize = spans.len();
    let mut out: Vec<SpeechSpan> = Vec::new();
    let mut i: usize = 0;
    while i < n
        invariant
            i <= n == spans@.len(),
            out@.len() == i,
            out@ == overlaps_clamped(spans@.take(i as int)),
        decreases n - i,
    {
        let s = spans[i];
        proof {
            assert(spans@.take(i + 1).drop_last() =~= spans@.take(i as int));
        }
        if i == 0 {
            out.push(s);
            proof {
                assert(out@ =~= spans@.take(1));
            }
        } else {
            let prev = out[i - 1];
            let start: i64 = if s.start_ms < prev.end_ms {
                prev.end_ms
            } else {
                s.start_ms
            };
            let end: i64 = if s.end_ms < start {
                start
            } else {
                s.end_ms
            };
            out.push(SpeechSpan { start_ms: start, end_ms: end });
        }
        i += 1;
    }
    proof {
        assert(spans@.take(n as int) =~= spans@);
    }
    out
}

/// The spans lie between `lo` and `hi`, and none ends before it begins.
pub open spec fn spans_within(s: Seq<SpeechSpan>, lo: int, hi: int) -> bool {
    forall|i: int|
        0 <= i < s.len() ==> lo <= (#[trigger] s[i]).start_ms <= s[i].end_ms <= hi
}

/// No span begins before an earlier one ends.
pub open spec fn spans_apart(s: Seq<SpeechSpan>) -> bool {
    forall|i: int, j: int|
        0 <= i < j < s.len() ==> (#[trigger] s[i]).end_ms <= (#[trigger] s[j]).start_ms
}

/// After [`clamp_overlaps`] no two spans overlap, and the spans stay within
/// the window they were in.
pub proof fn law_clamped_spans_are_apart(s: Seq<SpeechSpan>, lo: int, hi: int)
    requires
        spans_within(s, lo, hi),
    ensures
        overlaps_clamped(s).len() == s.len(),
        spans_within(overlaps_clamped(s), lo, hi),
        spans_apart(overlaps_clamped(s)),
    decreases s.len(),
{
    if s.len() > 1 {
        let t = s.drop_last();
        assert(spans_within(t, lo, hi)) by {
            assert forall|i: int| 0 <= i < t.len() implies lo <= (#[trigger] t[i]).start_ms
                <= t[i].end_ms <= hi by {
                assert(t[i] == s[i]);
            }
        }
        law_clamped_spans_are_apart(t, lo, hi);
        let before = overlaps_clamped(t);
        let r = overlaps_clamped(s);
        assert(s.last() == s[s.len() - 1]);
        assert(before.last() == before[before.len() - 1]);
        assert forall|i: int, j: int| 0 <= i < j < r.len() implies (#[trigger] r[i]).end_ms
            <= (#[trigger] r[j]).start_ms by {
            if j < before.len() {
                assert(before[i].end_ms <= before[j].start_ms);
            } else if i < before.len() - 1 {
                assert(before[i].end_ms <= before[before.len() - 1].start_ms);
            }
        }
        assert forall|i: int| 0 <= i < r.len() implies lo <= (#[trigger] r[i]).start_ms
            <= r[i].end_ms <= hi by {
            if i < before.len() {
                assert(r[i] == before[i]);
            }
        }
    }
}

/// The runs found from `i` on lie in the window.
pub proof fn lemma_loud_runs_within(f: Seq<bool>, i: int)
    requires
        0 <= i,
    ensures
        forall|k: int|
            0 <= k < loud_runs(f, i).len() ==> i <= (#[trigger] loud_runs(f, i)[k]).0 < loud_runs(
                f,
                i,
            )[k].1 <= f.len(),
    decreases f.len() - i,
{
    if i < f.len() {
        if f[i] {
            let e = run_end(f, i);
            lemma_run_end_bounds(f, i);
            lemma_loud_runs_within(f, e);
            let all = loud_runs(f, i);
            assert forall|k: int| 0 <= k < all.len() implies i <= (#[trigger] all[k]).0 < all[k].1
                <= f.len() by {
                if k > 0 {
                    assert(all[k] == loud_runs(f, e)[k - 1]);
                } else {
                    assert(all[0] == (i, e));
                }
            }
        } else {
            lemma_loud_runs_within(f, i + 1);
            let all = loud_runs(f, i);
            assert(all == loud_runs(f, i + 1));
            assert forall|k: int| 0 <= k < all.len() implies i <= (#[trigger] all[k]).0 < all[k].1
                <= f.len() by {
                assert(all[k] == loud_runs(f, i + 1)[k]);
            }
        }
    }
}

/// Padding never reaches beyond the window.
pub proof fn law_padded_spans_stay_in_window(f: Seq<bool>, pad: int)
    requires
        pad >= 0,
        f.len() * 20 <= i64::MAX,
    ensures
        spans_within(padded_spans(f, pad), 0, (f.len() * 20) as int),
{
    lemma_loud_runs_within(f, 0);
    let s = padded_spans(f, pad);
    assert forall|i: int| 0 <= i < s.len() implies 0 <= (#[trigger] s[i]).start_ms <= s[i].end_ms
        <= f.len() * 20 by {
        let run = loud_runs(f, 0)[i];
        assert(s[i] == padded_span(run, pad, f.len() as int));
    }
}

/// Filling pauses leaves the silence before the first and after the last
/// speech of a window alone, so that the end of speech can be seen.
pub proof fn law_outer_silence_is_kept(f: Seq<bool>, min_len: int, i: int)
    requires
        0 <= i < f.len(),
        (forall|k: int| 0 <= k <= i ==> !f[k]) || (forall|k: int| i <= k < f.len() ==> !f[k]),
    ensures
        !silences_merged(f, min_len)[i],
{
    lemma_run_bounds(f, i);
}

// ---------------------------------------------------------------------------
// Detection
// ---------------------------------------------------------------------------

/// The part of a window that whole frames cover, in milliseconds.
pub open spec fn framed_ms(window: Seq<Single>) -> int {
    (window.len() / 320 * 20) as int
}

/// How many frames `ms` milliseconds fill, counting a frame begun.
pub open spec fn frames_in(ms: int) -> int {
    (ms + 19) / 20
}

/// At least one frame.
pub open spec fn frames_at_least_one(ms: int) -> int {
    if frames_in(ms) < 1 {
        1
    } else {
        frames_in(ms)
    }
}

fn frames_for(ms: u32) -> (r: usize)
    ensures
        r == frames_in(ms as int),
{
    ((ms as u64 + 19) / 20) as usize
}

/// Which frames are louder than the threshold and than absolute silence.
pub open spec fn loud_frames(levels: Seq<Single>, threshold: Single) -> Seq<bool> {
    levels.map_values(
        |db: Single| threshold.less(db) && (Single { bits: ABSOLUTE_SILENCE_DB }).less(db),
    )
}

/// Loud frames with short bursts dropped and short pauses filled.
pub open spec fn speech_frames(
    levels: Seq<Single>,
    threshold: Single,
    min_speech_ms: int,
    min_silence_ms: int,
) -> Seq<bool> {
    silences_merged(
        short_runs_removed(
            loud_frames(levels, threshold),
            frames_at_least_one(min_speech_ms),
            true,
        ),
        frames_at_least_one(min_silence_ms),
    )
}

/// The spans of speech in a window with the given frame levels.
pub fn spans_from_levels(
    levels: &Vec<Single>,
    threshold: Single,
    min_speech_ms: u32,
    min_silence_ms: u32,
    speech_pad_ms: u32,
) -> (r: Vec<SpeechSpan>)
    requires
        levels@.len() * 20 <= i64::MAX,
    ensures
        r@ == padded_spans(
            speech_frames(levels@, threshold, min_speech_ms as int, min_silence_ms as int),
            frames_in(speech_pad_ms as int),
        ),
{
    let n: usize = levels.len();
    let mut flags: Vec<bool> = Vec::new();
    let mut i: usize = 0;
    while i < n
        invariant
            i <= n == levels@.len(),
            flags@ == loud_frames(levels@, threshold).take(i as int),
        decreases n - i,
    {
        let db = levels[i];
        flags.push(threshold.lt(db) && Single { bits: ABSOLUTE_SILENCE_DB }.lt(db));
        proof {
            assert(flags@ =~= loud_frames(levels@, threshold).take(i + 1));
        }
        i += 1;
    }
    proof {
        assert(flags@ =~= loud_frames(levels@, threshold));
    }
    let speech: usize = frames_for(min_speech_ms);
    let silence: usize = frames_for(min_silence_ms);
    let flags = remove_short_runs(
        &flags,
        if speech < 1 {
            1
        } else {
            speech
        },
        true,
    );
    let flags = merge_internal_silences(
        &flags,
        if silence < 1 {
            1
        } else {
            silence
        },
    );
    spans_of_flags(&flags, frames_for(speech_pad_ms))
}

impl<L, P, S, E> Acoustics<L, P, S, E> where
    L: Fn(&[Single]) -> Single,
    P: Fn(&[Single]) -> Single,
    S: Fn(Single, Single) -> Single,
    E: Fn(&[Single]) -> crate::num::Double,
 {
    /// `levels` came out as the levels of the frames of `window`.
    pub open spec fn levels_are(&self, window: Seq<Single>, levels: Seq<Single>) -> bool {
        &&& levels.len() == window.len() / 320
        &&& forall|i: int|
            0 <= i < levels.len() ==> self.level_is(
                window.subrange(i * 320, i * 320 + 320),
                #[trigger] levels[i],
            )
    }

    /// How the noise floor moves from `before` to `after` at a window with
    /// these levels: frozen during an utterance, once there is one.
    pub open spec fn floor_moves(
        &self,
        before: EnergyState,
        in_utterance: bool,
        levels: Seq<Single>,
        after: EnergyState,
    ) -> bool {
        if in_utterance && before.noise_db is Some {
            after == before
        } else {
            exists|low: Single|
                #[trigger] self.floor_is(levels, low) && after.noise_db == Some(floor_from(low))
        }
    }

    /// `spans` are the spans that `window` came out with, before they are
    /// moved apart.
    pub open spec fn detects(
        &self,
        window: Seq<Single>,
        threshold_db: Single,
        min_speech_ms: u32,
        min_silence_ms: u32,
        speech_pad_ms: u32,
        before: EnergyState,
        in_utterance: bool,
        after: EnergyState,
        spans: Seq<SpeechSpan>,
    ) -> bool {
        if window.len() < 320 {
            after == before && spans.len() == 0
        } else {
            exists|levels: Seq<Single>, threshold: Single|
                {
                    &&& #[trigger] self.levels_are(window, levels)
                    &&& self.floor_moves(before, in_utterance, levels, after)
                    &&& #[trigger] self.sum_is(after.floor(), threshold_db, threshold)
                    &&& spans == padded_spans(
                        speech_frames(
                            levels,
                            threshold,
                            min_speech_ms as int,
                            min_silence_ms as int,
                        ),
                        frames_in(speech_pad_ms as int),
                    )
                }
        }
    }

    fn frame_levels(&self, window: &[Single]) -> (levels: Vec<Single>)
        requires
            self.total(),
        ensures
            self.levels_are(window@, levels@),
    {
        let len: usize = window.len();
        let n: usize = len / FRAME;
        let mut levels: Vec<Single> = Vec::new();
        let mut i: usize = 0;
        while i < n
            invariant
                self.total(),
                len == window@.len(),
                n == len / 320,
                i <= n,
                levels@.len() == i,
                forall|k: int|
                    0 <= k < i ==> self.level_is(
                        window@.subrange(k * 320, k * 320 + 320),
                        #[trigger] levels@[k],
                    ),
            decreases n - i,
        {
            assert((i + 1) * 320 <= len);
            let frame = vstd::slice::slice_subrange(window, i * FRAME, i * FRAME + FRAME);
            let db = (self.level)(frame);
            proof {
                assert(self.level_is(window@.subrange(i * 320, i * 320 + 320), db));
            }
            levels.push(db);
            i += 1;
        }
        levels
    }
}

/// Detection with an adaptive noise floor, as the live pipeline uses it.
pub fn energy_detect_streaming<L, P, S, E>(
    window: &[Single],
    threshold_db: Single,
    min_speech_ms: u32,
    min_silence_ms: u32,
    speech_pad_ms: u32,
    state: &mut EnergyState,
    in_utterance: bool,
    acoustics: &Acoustics<L, P, S, E>,
) -> (r: Vec<SpeechSpan>) where
    L: Fn(&[Single]) -> Single,
    P: Fn(&[Single]) -> Single,
    S: Fn(Single, Single) -> Single,
    E: Fn(&[Single]) -> crate::num::Double,

    requires
        acoustics.total(),
    ensures
        acoustics.detects(
            window@,
            threshold_db,
            min_speech_ms,
            min_silence_ms,
            speech_pad_ms,
            *old(state),
            in_utterance,
            *final(state),
            r@,
        ),
        spans_within(r@, 0, framed_ms(window@)),
        old(state).wf() ==> final(state).wf(),
{
    let len: usize = window.len();
    if len < FRAME {
        return Vec::new();
    }
    let levels = acoustics.frame_levels(window);
    if !in_utterance || !state.is_ready() {
        let low = (acoustics.floor)(levels.as_slice());
        proof {
            assert(acoustics.floor_is(levels@, low));
        }
        state.observe(low);
    }
    let threshold = (acoustics.sum)(state.noise_db(), threshold_db);
    proof {
        assert(acoustics.sum_is(state.floor(), threshold_db, threshold));
        law_padded_spans_stay_in_window(
            speech_frames(levels@, threshold, min_speech_ms as int, min_silence_ms as int),
            frames_in(speech_pad_ms as int),
        );
    }
    spans_from_levels(&levels, threshold, min_speech_ms, min_silence_ms, speech_pad_ms)
}

/// Detection on a single window, with a noise floor of its own.
pub fn energy_detect<L, P, S, E>(
    window: &[Single],
    threshold_db: Single,
    min_speech_ms: u32,
    min_silence_ms: u32,
    speech_pad_ms: u32,
    acoustics: &Acoustics<L, P, S, E>,
) -> (r: Vec<SpeechSpan>) where
    L: Fn(&[Single]) -> Single,
    P: Fn(&[Single]) -> Single,
    S: Fn(Single, Single) -> Single,
    E: Fn(&[Single]) -> crate::num::Double,

    requires
        acoustics.total(),
    ensures
        exists|after: EnergyState|
            #[trigger] acoustics.detects(
                window@,
                threshold_db,
                min_speech_ms,
                min_silence_ms,
                speech_pad_ms,
                (EnergyState { noise_db: None }),
                false,
                after,
                r@,
            ),
        spans_within(r@, 0, framed_ms(window@)),
{
    let mut state = EnergyState::new();
    energy_detect_streaming(
        window,
        threshold_db,
        min_speech_ms,
        min_silence_ms,
        speech_pad_ms,
        &mut state,
        false,
        acoustics,
    )
}

/// The detector: its settings and its noise floor.
#[derive(Clone, Copy, Debug)]
pub struct VadEngine {
    pub cfg: VadSettings,
    pub state: EnergyState,
}

impl VadEngine {
    pub open spec fn wf(self) -> bool {
        self.state.wf()
    }

    pub fn new(cfg: &VadSettings) -> (r: VadEngine)
        ensures
            r.cfg == *cfg,
            r.state.noise_db is None,
            r.wf(),
    {
        VadEngine { cfg: *cfg, state: EnergyState::new() }
    }

    pub fn name(&self) -> (r: &'static str)
        ensures
            r@ == "energy"@,
    {
        "energy"
    }

    /// The current noise floor.
    pub fn noise_db(&self) -> (r: Single)
        ensures
            r == self.state.floor(),
    {
        self.state.noise_db()
    }

    /// The spans of speech in a window: in order, apart, and within it.
    /// `in_utterance` says that a sentence is still going on.
    pub fn detect<L, P, S, E>(
        &mut self,
        window: &[Single],
        in_utterance: bool,
        acoustics: &Acoustics<L, P, S, E>,
    ) -> (r: Vec<SpeechSpan>) where
        L: Fn(&[Single]) -> Single,
        P: Fn(&[Single]) -> Single,
        S: Fn(Single, Single) -> Single,
        E: Fn(&[Single]) -> crate::num::Double,

        requires
            acoustics.total(),
        ensures
            final(self).cfg == old(self).cfg,
            exists|spans: Seq<SpeechSpan>|
                #[trigger] acoustics.detects(
                    window@,
                    old(self).cfg.energy_threshold_db,
                    old(self).cfg.min_speech_ms,
                    old(self).cfg.min_silence_ms,
                    old(self).cfg.speech_pad_ms,
                    old(self).state,
                    in_utterance,
                    final(self).state,
                    spans,
                ) && r@ == overlaps_clamped(spans),
            spans_within(r@, 0, framed_ms(window@)),
            spans_apart(r@),
            old(self).wf() ==> final(self).wf(),
    {
        let cfg = self.cfg;
        let spans = energy_detect_streaming(
            window,
            cfg.energy_threshold_db,
            cfg.min_speech_ms,
            cfg.min_silence_ms,
            cfg.speech_pad_ms,
            &mut self.state,
            in_utterance,
            acoustics,
        );
        proof {
            law_clamped_spans_are_apart(spans@, 0, framed_ms(window@));
        }
        clamp_overlaps(&spans)
    }
}

/// A burst of sound that is long enough is speech from its first frame to its last; a
/// shorter one is dropped whole. Silence is not touched by this.
pub proof fn law_long_bursts_stay_and_short_ones_go(f: Seq<bool>, a: int, b: int, min_len: int, i: int)
    requires
        maximal_run(f, a, b),
        a <= i < b,
    ensures
        f[a] && b - a >= min_len ==> short_runs_removed(f, min_len, true)[i],
        f[a] && b - a < min_len ==> !short_runs_removed(f, min_len, true)[i],
        !f[a] ==> !short_runs_removed(f, min_len, true)[i],
{
    lemma_run(f, a, b, i);
}

/// A pause within speech that is shorter than asked for is filled; a longer one stays
/// a pause. Speech is not touched by this.
pub proof fn law_short_pauses_are_filled(f: Seq<bool>, a: int, b: int, min_len: int, i: int)
    requires
        maximal_run(f, a, b),
        a <= i < b,
    ensures
        f[a] ==> silences_merged(f, min_len)[i],
        !f[a] && 0 < a && b < f.len() && b - a < min_len ==> silences_merged(f, min_len)[i],
        !f[a] && b - a >= min_len ==> !silences_merged(f, min_len)[i],
{
    lemma_run(f, a, b, i);
}

/// A frame counts as loud if it is above the threshold and above absolute silence.
pub proof fn law_loud_frames_are_above_the_threshold(levels: Seq<Single>, threshold: Single, i: int)
    requires
        0 <= i < levels.len(),
    ensures
        loud_frames(levels, threshold).len() == levels.len(),
        loud_frames(levels, threshold)[i] ==> threshold.less(levels[i]),
        threshold.less(levels[i]) && (Single { bits: ABSOLUTE_SILENCE_DB }).less(levels[i])
            ==> loud_frames(levels, threshold)[i],
{
}

/// Every frame of speech lies in one of the spans that are found, and each span holds
/// speech: it reaches from a first to a last frame of speech, a little wider on both
/// sides.
pub proof fn law_spans_cover_all_speech(f: Seq<bool>, pad: int, i: int)
    requires
        pad >= 0,
        f.len() * 20 <= i64::MAX,
        0 <= i < f.len(),
        f[i],
    ensures
        exists|k: int|
            0 <= k < padded_spans(f, pad).len() && (#[trigger] padded_spans(f, pad)[k]).start_ms <= i
                * 20 && i * 20 + 20 <= padded_spans(f, pad)[k].end_ms,
{
    lemma_runs_cover(f, 0, i);
    lemma_loud_runs_within(f, 0);
    let runs = loud_runs(f, 0);
    let k = choose|k: int| 0 <= k < runs.len() && (#[trigger] runs[k]).0 <= i < runs[k].1;
    assert(padded_spans(f, pad)[k] == padded_span(runs[k], pad, f.len() as int));
}

proof fn lemma_runs_cover(f: Seq<bool>, from: int, i: int)
    requires
        0 <= from <= i < f.len(),
        f[i],
    ensures
        exists|k: int|
            0 <= k < loud_runs(f, from).len() && (#[trigger] loud_runs(f, from)[k]).0 <= i
                < loud_runs(f, from)[k].1,
    decreases f.len() - from,
{
    let all = loud_runs(f, from);
    if f[from] {
        let e = run_end(f, from);
        lemma_run_end_bounds(f, from);
        if i < e {
            assert(all[0] == (from, e));
        } else {
            lemma_runs_cover(f, e, i);
            let rest = loud_runs(f, e);
            let k = choose|k: int| 0 <= k < rest.len() && (#[trigger] rest[k]).0 <= i < rest[k].1;
            assert(all[k + 1] == rest[k]);
        }
    } else {
        lemma_runs_cover(f, from + 1, i);
        assert(all == loud_runs(f, from + 1));
    }
}

/// Where there is no speech there is no span, and a span without padding holds nothing
/// but speech.
pub proof fn law_spans_hold_nothing_but_speech(f: Seq<bool>, k: int, i: int)
    requires
        f.len() * 20 <= i64::MAX,
        0 <= k < padded_spans(f, 0).len(),
        padded_spans(f, 0)[k].start_ms <= i * 20,
        i * 20 < padded_spans(f, 0)[k].end_ms,
    ensures
        0 <= i < f.len(),
        f[i],
{
    lemma_runs_are_loud(f, 0, k);
    lemma_loud_runs_within(f, 0);
    let run = loud_runs(f, 0)[k];
    assert(padded_spans(f, 0)[k] == padded_span(run, 0, f.len() as int));
    assert(run.0 <= i < run.1);
}

proof fn lemma_runs_are_loud(f: Seq<bool>, from: int, k: int)
    requires
        0 <= from,
        0 <= k < loud_runs(f, from).len(),
    ensures
        forall|i: int| loud_runs(f, from)[k].0 <= i < loud_runs(f, from)[k].1 ==> f[i],
    decreases f.len() - from,
{
    let all = loud_runs(f, from);
    if f[from] {
        let e = run_end(f, from);
        lemma_run_end_bounds(f, from);
        if k == 0 {
            assert(all[0] == (from, e));
        } else {
            lemma_runs_are_loud(f, e, k - 1);
            assert(all[k] == loud_runs(f, e)[k - 1]);
        }
    } else {
        lemma_runs_are_loud(f, from + 1, k);
        assert(all == loud_runs(f, from + 1));
    }
}

impl<L, P, S, E> Acoustics<L, P, S, E> where
    L: Fn(&[Single]) -> Single,
    P: Fn(&[Single]) -> Single,
    S: Fn(Single, Single) -> Single,
    E: Fn(&[Single]) -> crate::num::Double,
 {
    /// Speech does not raise the noise floor: during an utterance it stays where it
    /// was. The threshold is the floor and what was set, and the level of each frame
    /// is measured on its own twenty milliseconds.
    pub proof fn law_speech_does_not_raise_the_floor(
        &self,
        window: Seq<Single>,
        threshold_db: Single,
        min_speech_ms: u32,
        min_silence_ms: u32,
        speech_pad_ms: u32,
        before: EnergyState,
        in_utterance: bool,
        after: EnergyState,
        spans: Seq<SpeechSpan>,
    )
        requires
            self.detects(
                window,
                threshold_db,
                min_speech_ms,
                min_silence_ms,
                speech_pad_ms,
                before,
                in_utterance,
                after,
                spans,
            ),
        ensures
            in_utterance && before.noise_db is Some ==> after == before,
            window.len() < 320 ==> after == before && spans.len() == 0,
            window.len() >= 320 ==> exists|levels: Seq<Single>, threshold: Single|
                #[trigger] self.levels_are(window, levels) && #[trigger] self.sum_is(
                    after.floor(),
                    threshold_db,
                    threshold,
                ) && levels.len() == window.len() / 320 && spans == padded_spans(
                    speech_frames(
                        levels,
                        threshold,
                        min_speech_ms as int,
                        min_silence_ms as int,
                    ),
                    frames_in(speech_pad_ms as int),
                ),
    {
    }
}

/// Times become frames of twenty milliseconds, a frame begun counting whole.
pub proof fn law_frames_are_twenty_milliseconds(n: int, ms: int)
    requires
        n >= 0,
        0 < ms <= 20,
    ensures
        frames_in(20 * n) == n,
        frames_in(20 * n + ms) == n + 1,
        frames_at_least_one(0) == 1,
        n > 0 ==> frames_at_least_one(20 * n) == n,
{
}

/// A span reaches as many frames of twenty milliseconds beyond its run as were asked
/// for, on both sides, but not beyond the window.
pub proof fn law_spans_are_widened_on_both_sides(run: (int, int), pad: int, n: int)
    requires
        0 <= pad,
        0 <= run.0 <= run.1 <= n,
        n * 20 <= i64::MAX,
    ensures
        run.0 >= pad ==> run.0 * 20 - padded_span(run, pad, n).start_ms == pad * 20,
        run.0 < pad ==> padded_span(run, pad, n).start_ms == 0,
        run.1 + pad <= n ==> padded_span(run, pad, n).end_ms - run.1 * 20 == pad * 20,
        run.1 + pad > n ==> padded_span(run, pad, n).end_ms == n * 20,
{
}

/// A sound that stands alone is speech if it lasts as long as speech must, and nothing
/// otherwise, however long silence must be.
pub proof fn law_single_sounds_are_speech_if_long_enough(
    levels: Seq<Single>,
    threshold: Single,
    a: int,
    b: int,
    min_speech_ms: int,
    min_silence_ms: int,
)
    requires
        0 <= a < b <= levels.len(),
        0 < min_speech_ms,
        forall|i: int|
            0 <= i < levels.len() ==> loud_frames(levels, threshold)[i] == (a <= i < b),
    ensures
        (b - a) * 20 >= min_speech_ms ==> speech_frames(
            levels,
            threshold,
            min_speech_ms,
            min_silence_ms,
        ) == loud_frames(levels, threshold),
        (b - a) * 20 < min_speech_ms ==> forall|i: int|
            0 <= i < levels.len() ==> !#[trigger] speech_frames(
                levels,
                threshold,
                min_speech_ms,
                min_silence_ms,
            )[i],
{
    let f = loud_frames(levels, threshold);
    let n = frames_at_least_one(min_speech_ms);
    let g = short_runs_removed(f, n, true);
    let h = silences_merged(g, frames_at_least_one(min_silence_ms));
    assert(f.len() == levels.len());
    assert(maximal_run(f, a, b));
    assert forall|i: int| 0 <= i < f.len() implies g[i] == (f[i] && b - a >= n) by {
        if f[i] {
            lemma_run(f, a, b, i);
        }
    }
    assert forall|i: int| 0 <= i < f.len() implies h[i] == g[i] by {
        if !g[i] {
            lemma_run_bounds(g, i);
            let s = run_start(g, i);
            let e = run_end(g, i);
            if s > 0 && e < g.len() {
                assert(g[s - 1] != g[s] && g[e] != g[s]);
                assert(g[i] == g[s]);
            }
        }
    }
    if (b - a) * 20 >= min_speech_ms {
        assert(h =~= f);
    }
}

} // verus!
