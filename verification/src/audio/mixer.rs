//! Mixing: samples of each source wait here until there is enough for a frame.
//!
//! A frame is made only when some source has enough for it, so that a source
//! that went silent neither stops the others nor makes frames without end. The
//! sums themselves are made elsewhere; this module says which samples go into
//! which frame.

use vstd::prelude::*;
use vstd::string::*;
use crate::audio::capture::PlannedSource;
use crate::audio::capture::PlannedView;
use crate::audio::capture::SourceKind;
use crate::audio::capture::planned_views;
use crate::num::Single;

verus! {

/// Samples in a frame: 100 ms.
pub const HOP_SAMPLES: usize = 1_600;

/// Samples that a source may have waiting: two seconds.
pub const MAX_PENDING: usize = 32_000;

/// The rate of everything that is mixed.
pub const TARGET_RATE: u32 = 16_000;

/// A source of the mix.
pub struct MixSource {
    pub id: String,
    pub kind: SourceKind,
    pub gain: Single,
    /// The rate at which the source records.
    pub rate: u32,
    pub pending: Vec<Single>,
}

/// Model of [`MixSource`].
#[verifier::ext_equal]
pub ghost struct MixSourceView {
    pub id: Seq<char>,
    pub kind: SourceKind,
    pub gain: Single,
    pub rate: u32,
    pub pending: Seq<Single>,
}

impl View for MixSource {
    type V = MixSourceView;

    open spec fn view(&self) -> MixSourceView {
        MixSourceView {
            id: self.id@,
            kind: self.kind,
            gain: self.gain,
            rate: self.rate,
            pending: self.pending@,
        }
    }
}

/// What a source gives to a frame: its samples, then silence.
pub struct Hop {
    pub samples: Vec<Single>,
    /// How many of them are the source's own.
    pub heard: usize,
}

/// How many samples a source gives to the next frame.
pub open spec fn heard(pending: Seq<Single>) -> int {
    if pending.len() < HOP_SAMPLES {
        pending.len() as int
    } else {
        HOP_SAMPLES as int
    }
}

/// What it gives.
pub open spec fn hop_of(pending: Seq<Single>) -> Seq<Single> {
    Seq::new(
        HOP_SAMPLES as nat,
        |i: int|
            if i < heard(pending) {
                pending[i]
            } else {
                Single { bits: 0 }
            },
    )
}

/// What waits after `more` came in: the oldest samples go if it is too much.
pub open spec fn buffered(pending: Seq<Single>, more: Seq<Single>) -> Seq<Single> {
    let all = pending + more;
    if all.len() > MAX_PENDING {
        all.skip(all.len() - MAX_PENDING)
    } else {
        all
    }
}

/// The source after it gave to a frame.
pub open spec fn after_hop(s: MixSourceView) -> MixSourceView {
    MixSourceView { pending: s.pending.skip(heard(s.pending)), ..s }
}

/// Some source has enough for a frame.
pub open spec fn frame_ready(v: Seq<MixSourceView>) -> bool {
    exists|i: int| 0 <= i < v.len() && (#[trigger] v[i]).pending.len() >= HOP_SAMPLES
}

/// Some source has samples left.
pub open spec fn something_left(v: Seq<MixSourceView>) -> bool {
    exists|i: int| 0 <= i < v.len() && (#[trigger] v[i]).pending.len() > 0
}

/// A source at the start.
pub open spec fn silent(p: PlannedView) -> MixSourceView {
    MixSourceView {
        id: p.id,
        kind: p.kind,
        gain: p.gain,
        rate: TARGET_RATE,
        pending: Seq::empty(),
    }
}

/// The sources of a recording with the samples that wait.
pub struct Mixer {
    sources: Vec<MixSource>,
}

impl View for Mixer {
    type V = Seq<MixSourceView>;

    closed spec fn view(&self) -> Seq<MixSourceView> {
        self.sources@.map_values(|s: MixSource| s@)
    }
}

impl Mixer {
    pub fn new(sources: &Vec<PlannedSource>) -> (r: Mixer)
        ensures
            r@ == planned_views(sources@).map_values(|p: PlannedView| silent(p)),
    {
        let ghost all = planned_views(sources@).map_values(|p: PlannedView| silent(p));
        let n: usize = sources.len();
        let mut out: Vec<MixSource> = Vec::new();
        let mut i: usize = 0;
        while i < n
            invariant
                i <= n == sources@.len(),
                out@.len() == i,
                all.len() == n,
                forall|j: int| 0 <= j < n ==> #[trigger] all[j] == silent(sources@[j]@),
                forall|j: int| 0 <= j < i ==> (#[trigger] out@[j])@ == all[j],
            decreases n - i,
        {
            let p = &sources[i];
            out.push(
                MixSource {
                    id: p.source.id.clone(),
                    kind: p.source.kind,
                    gain: p.gain,
                    rate: TARGET_RATE,
                    pending: Vec::new(),
                },
            );
            proof {
                assert(out@[i as int]@ =~= all[i as int]);
            }
            i += 1;
        }
        let r = Mixer { sources: out };
        proof {
            assert(r@ =~= all);
        }
        r
    }

    pub fn len(&self) -> (r: usize)
        ensures
            r == self@.len(),
    {
        self.sources.len()
    }

    /// The source with an index.
    pub fn source(&self, index: usize) -> (r: &MixSource)
        requires
            index < self@.len(),
        ensures
            r@ == self@[index as int],
    {
        &self.sources[index]
    }

    /// Notes the rate of a block of a source and says whether it is a new one,
    /// for which samples are converted anew. A rate does not change while
    /// samples wait.
    pub fn set_rate(&mut self, index: usize, rate: u32) -> (changed: bool)
        ensures
            changed == (index < old(self)@.len() && old(self)@[index as int].rate != rate && old(
                self,
            )@[index as int].pending.len() == 0),
            final(self)@ == if changed {
                old(self)@.update(
                    index as int,
                    MixSourceView { rate, ..old(self)@[index as int] },
                )
            } else {
                old(self)@
            },
    {
        if index >= self.sources.len() {
            return false;
        }
        if self.sources[index].rate == rate || self.sources[index].pending.len() > 0 {
            return false;
        }
        let ghost before = self@;
        self.sources[index].rate = rate;
        proof {
            assert(self@ =~= before.update(
                index as int,
                MixSourceView { rate, ..before[index as int] },
            ));
        }
        true
    }

    /// Takes samples of the source with an index. Returns how many of the oldest
    /// samples had to go; nothing if there is no such source.
    pub fn accept(&mut self, index: usize, samples: &[Single]) -> (r: Option<usize>)
        requires
            index < old(self)@.len() ==> old(self)@[index as int].pending.len() + samples@.len()
                <= usize::MAX,
        ensures
            if index < old(self)@.len() {
                let s = old(self)@[index as int];
                &&& final(self)@ == old(self)@.update(
                    index as int,
                    MixSourceView { pending: buffered(s.pending, samples@), ..s },
                )
                &&& r matches Some(gone) && gone + buffered(s.pending, samples@).len()
                    == s.pending.len() + samples@.len()
            } else {
                final(self)@ == old(self)@ && r is None
            },
    {
        if index >= self.sources.len() {
            return None;
        }
        let ghost before = self@;
        let ghost s = before[index as int];
        let ghost all = s.pending + samples@;
        let mut pending: Vec<Single> = Vec::new();
        let src = &mut self.sources[index];
        pending.append(&mut src.pending);
        pending.extend_from_slice(samples);
        proof {
            assert(pending@ =~= all);
        }
        let n: usize = pending.len();
        let mut gone: usize = 0;
        if n > MAX_PENDING {
            gone = n - MAX_PENDING;
            pending = pending.split_off(gone);
        }
        proof {
            assert(pending@ =~= buffered(s.pending, samples@));
        }
        src.pending = pending;
        proof {
            assert(self@ =~= before.update(
                index as int,
                MixSourceView { pending: buffered(s.pending, samples@), ..s },
            ));
        }
        Some(gone)
    }

    /// Whether there is enough for a frame.
    pub fn ready(&self) -> (r: bool)
        ensures
            r == frame_ready(self@),
    {
        let n: usize = self.sources.len();
        let mut i: usize = 0;
        while i < n
            invariant
                i <= n == self.sources@.len(),
                forall|j: int| 0 <= j < i ==> (#[trigger] self@[j]).pending.len() < HOP_SAMPLES,
            decreases n - i,
        {
            proof {
                assert(self@[i as int] == self.sources@[i as int]@);
            }
            if self.sources[i].pending.len() >= HOP_SAMPLES {
                return true;
            }
            i += 1;
        }
        false
    }

    /// Whether any samples wait.
    pub fn has_rest(&self) -> (r: bool)
        ensures
            r == something_left(self@),
    {
        let n: usize = self.sources.len();
        let mut i: usize = 0;
        while i < n
            invariant
                i <= n == self.sources@.len(),
                forall|j: int| 0 <= j < i ==> (#[trigger] self@[j]).pending.len() == 0,
            decreases n - i,
        {
            proof {
                assert(self@[i as int] == self.sources@[i as int]@);
            }
            if self.sources[i].pending.len() > 0 {
                return true;
            }
            i += 1;
        }
        false
    }

    /// Takes the samples of a frame: what each source gives, in the order of the
    /// sources.
    pub fn take_hops(&mut self) -> (r: Vec<Hop>)
        ensures
            final(self)@ == old(self)@.map_values(|s: MixSourceView| after_hop(s)),
            r@.len() == old(self)@.len(),
            forall|i: int|
                0 <= i < r@.len() ==> (#[trigger] r@[i]).samples@ == hop_of(
                    old(self)@[i].pending,
                ) && r@[i].heard == heard(old(self)@[i].pending),
    {
        let ghost before = self@;
        let n: usize = self.sources.len();
        let mut out: Vec<Hop> = Vec::new();
        let mut i: usize = 0;
        while i < n
            invariant
                i <= n == self.sources@.len(),
                before.len() == n,
                out@.len() == i,
                forall|j: int| 0 <= j < i ==> (#[trigger] self.sources@[j])@ == after_hop(before[j]),
                forall|j: int| i <= j < n ==> (#[trigger] self.sources@[j])@ == before[j],
                forall|j: int|
                    0 <= j < i ==> (#[trigger] out@[j]).samples@ == hop_of(before[j].pending)
                        && out@[j].heard == heard(before[j].pending),
            decreases n - i,
        {
            let ghost held = self.sources@;
            let ghost was = before[i as int].pending;
            let src = &mut self.sources[i];
            let waiting: usize = src.pending.len();
            let take: usize = if waiting < HOP_SAMPLES {
                waiting
            } else {
                HOP_SAMPLES
            };
            let mut samples: Vec<Single> = Vec::new();
            let mut k: usize = 0;
            while k < HOP_SAMPLES
                invariant
                    k <= HOP_SAMPLES,
                    src.pending@ == was,
                    take == heard(was),
                    take <= was.len(),
                    samples@.len() == k,
                    forall|j: int|
                        0 <= j < k ==> #[trigger] samples@[j] == if j < take {
                            was[j]
                        } else {
                            Single { bits: 0 }
                        },
                decreases HOP_SAMPLES - k,
            {
                if k < take {
                    samples.push(src.pending[k]);
                } else {
                    samples.push(Single::zero());
                }
                k += 1;
            }
            src.pending = src.pending.split_off(take);
            proof {
                assert(samples@ =~= hop_of(was));
                assert(self.sources@[i as int]@ =~= after_hop(before[i as int]));
                assert(forall|j: int|
                    0 <= j < n && j != i ==> self.sources@[j] == #[trigger] held[j]);
            }
            out.push(Hop { samples, heard: take });
            i += 1;
        }
        proof {
            assert(self@ =~= before.map_values(|s: MixSourceView| after_hop(s)));
        }
        out
    }
}

// ---------------------------------------------------------------------------
// Laws
// ---------------------------------------------------------------------------

/// No sample is lost, repeated or moved by making a frame: what a source gives
/// and what it keeps make up what it had.
pub proof fn law_frames_keep_every_sample(s: MixSourceView)
    ensures
        hop_of(s.pending).take(heard(s.pending)) + after_hop(s).pending == s.pending,
        hop_of(s.pending).len() == HOP_SAMPLES,
{
    assert(hop_of(s.pending).take(heard(s.pending)) + after_hop(s).pending =~= s.pending);
}

/// What waits never grows beyond the limit, and is always the newest part of
/// what came in.
pub proof fn law_buffer_keeps_the_newest(pending: Seq<Single>, more: Seq<Single>)
    ensures
        buffered(pending, more).len() <= MAX_PENDING,
        buffered(pending, more).is_suffix_of(pending + more),
        (pending + more).len() <= MAX_PENDING ==> buffered(pending, more) == pending + more,
{
    let all = pending + more;
    assert(all.skip(all.len() - buffered(pending, more).len()) =~= buffered(pending, more));
}

/// All samples that wait.
pub open spec fn total_pending(v: Seq<MixSourceView>) -> nat
    decreases v.len(),
{
    if v.len() == 0 {
        0
    } else {
        total_pending(v.drop_last()) + v.last().pending.len()
    }
}

/// A frame that is made while samples wait uses some of them up: emptying the
/// sources comes to an end, and a source without data makes no frames.
pub proof fn law_frames_use_up_samples(v: Seq<MixSourceView>)
    ensures
        something_left(v) ==> total_pending(v.map_values(|s: MixSourceView| after_hop(s)))
            < total_pending(v),
        frame_ready(v) ==> something_left(v),
        total_pending(v.map_values(|s: MixSourceView| after_hop(s))) <= total_pending(v),
    decreases v.len(),
{
    let f = |s: MixSourceView| after_hop(s);
    if frame_ready(v) {
        let i = choose|i: int| 0 <= i < v.len() && (#[trigger] v[i]).pending.len() >= HOP_SAMPLES;
        assert(v[i].pending.len() > 0);
    }
    if v.len() > 0 {
        let rest = v.drop_last();
        law_frames_use_up_samples(rest);
        assert(v.map_values(f).drop_last() =~= rest.map_values(f));
        assert(v.map_values(f).last() == after_hop(v.last()));
        assert(after_hop(v.last()).pending.len() == v.last().pending.len() - heard(
            v.last().pending,
        ));
        if something_left(v) {
            let i = choose|i: int| 0 <= i < v.len() && (#[trigger] v[i]).pending.len() > 0;
            if i < rest.len() {
                assert(rest[i].pending.len() > 0);
                assert(something_left(rest));
            }
        }
    }
}

/// Frames are a tenth of a second long, and each source gives its own samples in their
/// order, then silence; nothing of one source gets into another.
pub proof fn law_frames_hold_what_the_source_gave(s: MixSourceView, i: int)
    requires
        0 <= i < 1_600,
    ensures
        hop_of(s.pending).len() == 1_600,
        i < s.pending.len() ==> hop_of(s.pending)[i] == s.pending[i],
        i >= s.pending.len() ==> hop_of(s.pending)[i].bits == 0,
        after_hop(s).id == s.id && after_hop(s).kind == s.kind && after_hop(s).gain == s.gain,
        after_hop(s).rate == s.rate,
        s.pending.len() <= 1_600 ==> after_hop(s).pending.len() == 0,
        s.pending.len() > 1_600 ==> after_hop(s).pending == s.pending.skip(1_600),
{
}

/// What [`Mixer::accept`] does: the samples wait behind those of their own source, and
/// no other source changes.
pub proof fn law_samples_wait_at_their_source(
    mixer: &mut Mixer,
    index: usize,
    samples: &[Single],
    r: Option<usize>,
    other: int,
)
    requires
        call_ensures(Mixer::accept, (mixer, index, samples), r),
        index < old(mixer)@.len(),
        0 <= other < old(mixer)@.len(),
        other != index,
    ensures
        final(mixer)@.len() == old(mixer)@.len(),
        final(mixer)@[other] == old(mixer)@[other],
        final(mixer)@[index as int].pending.is_suffix_of(
            old(mixer)@[index as int].pending + samples@,
        ),
        r == Some(0usize) ==> final(mixer)@[index as int].pending
            == old(mixer)@[index as int].pending + samples@,
        final(mixer)@[index as int].gain == old(mixer)@[index as int].gain,
{
    let s = old(mixer)@[index as int];
    law_buffer_keeps_the_newest(s.pending, samples@);
    assert(buffered(s.pending, samples@).len() == (s.pending + samples@).len()
        ==> buffered(s.pending, samples@) =~= s.pending + samples@);
}

} // verus!
