//! Cutting a stream of audio into utterances.
//!
//! [`Segmenter`] takes frames of 16 kHz mono audio and says when speech starts
//! and ends and what to recognise. Its state is modelled by [`SegmenterView`];
//! each stage of a step is a function on that model.

use std::collections::VecDeque;
use vstd::prelude::*;
use crate::audio::capture::SourceKind;
use crate::audio::vad::Acoustics;
use crate::audio::vad::EnergyState;
use crate::audio::vad::FrameEnergy;
use crate::audio::vad::SpeechSpan;
use crate::audio::vad::VadEngine;
use crate::audio::vad::framed_ms;
use crate::audio::vad::overlaps_clamped;
use crate::audio::vad::spans_within;
use crate::num::Double;
use crate::num::Single;
use crate::settings::VadSettings;

verus! {

/// Time between two previews of an utterance.
pub const PARTIAL_STEP_MS: i64 = 800;

/// Time between two runs of voice activity detection.
pub const VAD_STEP_MS: i64 = 500;

/// How much earlier than detected an utterance begins, so that its first
/// consonant is not cut off.
pub const PRE_ROLL_MS: i64 = 400;

/// How much more audio than the longest utterance is remembered.
pub const HISTORY_MARGIN_MS: i64 = 3_000;

/// How long source energies are remembered.
pub const ENERGY_RING_MS: i64 = 10_000;

/// The most samples one segmenter can take in; over a million years of audio.
pub const MAX_SAMPLES: u64 = 0x0400_0000_0000_0000;

/// Energies of the sources over an utterance, in order of arrival.
#[derive(Debug)]
pub struct SourceShare {
    pub frames: Vec<(SourceKind, Single)>,
}

impl View for SourceShare {
    type V = Seq<(SourceKind, Single)>;

    open spec fn view(&self) -> Seq<(SourceKind, Single)> {
        self.frames@
    }
}

impl SourceShare {
    /// No energy heard yet.
    pub fn empty() -> (r: SourceShare)
        ensures
            r@ == Seq::<(SourceKind, Single)>::empty(),
    {
        SourceShare { frames: Vec::new() }
    }

    /// Notes the energy of one source in a frame.
    pub fn add_frame(&mut self, kind: SourceKind, energy: FrameEnergy)
        ensures
            final(self)@ == old(self)@.push((kind, energy.rms)),
    {
        self.frames.push((kind, energy.rms));
    }
}

/// Work for speech recognition.
#[derive(Debug)]
pub enum AsrJob {
    /// Recognise what has been said so far of an utterance. `preview` is the
    /// number under which the job is called off later.
    Partial { utt_id: u64, samples: Vec<Single>, start_ms: i64, preview: u64 },
    /// Recognise a whole utterance.
    Final {
        utt_id: u64,
        samples: Vec<Single>,
        start_ms: i64,
        end_ms: i64,
        share: SourceShare,
    },
}

/// What a step of the segmenter asks for.
#[derive(Debug)]
pub enum SegmenterAction {
    SpeechStarted { start_ms: i64 },
    SpeechEnded { end_ms: i64 },
    /// The preview with this number is no longer wanted.
    PreviewAborted { preview: u64 },
    Job(AsrJob),
}

/// Model of [`AsrJob`].
#[verifier::ext_equal]
pub ghost enum JobView {
    Partial { utt_id: int, samples: Seq<Single>, start: int, preview: int },
    Final {
        utt_id: int,
        samples: Seq<Single>,
        start: int,
        end: int,
        share: Seq<(SourceKind, Single)>,
    },
}

impl View for AsrJob {
    type V = JobView;

    open spec fn view(&self) -> JobView {
        match *self {
            AsrJob::Partial { utt_id, samples, start_ms, preview } => JobView::Partial {
                utt_id: utt_id as int,
                samples: samples@,
                start: start_ms as int,
                preview: preview as int,
            },
            AsrJob::Final { utt_id, samples, start_ms, end_ms, share } => JobView::Final {
                utt_id: utt_id as int,
                samples: samples@,
                start: start_ms as int,
                end: end_ms as int,
                share: share@,
            },
        }
    }
}

/// Model of [`SegmenterAction`].
#[verifier::ext_equal]
pub ghost enum ActionView {
    Started(int),
    Ended(int),
    Aborted(int),
    Job(JobView),
}

impl View for SegmenterAction {
    type V = ActionView;

    open spec fn view(&self) -> ActionView {
        match *self {
            SegmenterAction::SpeechStarted { start_ms } => ActionView::Started(start_ms as int),
            SegmenterAction::SpeechEnded { end_ms } => ActionView::Ended(end_ms as int),
            SegmenterAction::PreviewAborted { preview } => ActionView::Aborted(preview as int),
            SegmenterAction::Job(job) => ActionView::Job(job@),
        }
    }
}

pub open spec fn action_views(actions: Seq<SegmenterAction>) -> Seq<ActionView> {
    actions.map_values(|a: SegmenterAction| a@)
}

/// The model of a [`Segmenter`].
#[verifier::ext_equal]
pub ghost struct SegmenterView {
    pub vad: EnergyState,
    pub cfg: VadSettings,
    pub live_preview: bool,
    pub history: Seq<Single>,
    pub audio: int,
    pub in_speech: bool,
    pub utt_id: int,
    pub utt: Seq<Single>,
    pub utt_start: int,
    pub preview: Option<int>,
    pub previews: int,
    pub share: Seq<(SourceKind, Single)>,
    pub single_source: Option<SourceKind>,
    pub ring: Seq<(int, SourceKind, Single)>,
    pub last_vad: int,
    pub last_partial: int,
    pub total_speech: int,
    pub last_speech_end: int,
    pub last_seen: int,
    pub last_final_end: int,
    /// Samples taken in so far.
    pub fed: int,
}

/// A segmenter that has heard nothing yet.
pub open spec fn fresh(cfg: VadSettings, live_preview: bool) -> SegmenterView {
    SegmenterView {
        vad: EnergyState { noise_db: None },
        cfg,
        live_preview,
        history: Seq::empty(),
        audio: 0,
        in_speech: false,
        utt_id: 0,
        utt: Seq::empty(),
        utt_start: 0,
        preview: None,
        previews: 0,
        share: Seq::empty(),
        single_source: None,
        ring: Seq::empty(),
        last_vad: -VAD_STEP_MS as int,
        last_partial: 0,
        total_speech: 0,
        last_speech_end: 0,
        last_seen: 0,
        last_final_end: 0,
        fed: 0,
    }
}

/// Duration of `n` samples in whole milliseconds.
pub open spec fn ms_of(n: int) -> int {
    n * 1000 / 16000
}

/// Number of samples in `ms` milliseconds.
pub open spec fn samples_in(ms: int) -> int {
    ms * 16000 / 1000
}

pub open spec fn smaller(a: int, b: int) -> int {
    if a <= b {
        a
    } else {
        b
    }
}

pub open spec fn larger(a: int, b: int) -> int {
    if a >= b {
        a
    } else {
        b
    }
}

/// The energy entries that are not older than [`ENERGY_RING_MS`].
pub open spec fn recent_energies(
    ring: Seq<(int, SourceKind, Single)>,
    now: int,
) -> Seq<(int, SourceKind, Single)>
    decreases ring.len(),
{
    if ring.len() > 0 && now - ring[0].0 > ENERGY_RING_MS {
        recent_energies(ring.drop_first(), now)
    } else {
        ring
    }
}

/// The sources and energies of the entries from `start` on.
pub open spec fn energies_since(
    ring: Seq<(int, SourceKind, Single)>,
    start: int,
) -> Seq<(SourceKind, Single)>
    decreases ring.len(),
{
    if ring.len() == 0 {
        Seq::empty()
    } else {
        let before = energies_since(ring.drop_last(), start);
        if ring.last().0 >= start {
            before.push((ring.last().1, ring.last().2))
        } else {
            before
        }
    }
}

/// The sources and energies of a frame's levels.
pub open spec fn level_energies(
    levels: Seq<(String, SourceKind, FrameEnergy)>,
) -> Seq<(SourceKind, Single)> {
    levels.map_values(|l: (String, SourceKind, FrameEnergy)| (l.1, l.2.rms))
}

/// Energies with the time at which they were heard.
pub open spec fn dated(
    heard: Seq<(SourceKind, Single)>,
    at: int,
) -> Seq<(int, SourceKind, Single)> {
    heard.map_values(|e: (SourceKind, Single)| (at, e.0, e.1))
}

/// The position of the smallest of some energies, and that energy: the first
/// one where several are smallest. Nothing counts that is not below the largest
/// finite number.
pub open spec fn quietest(energies: Seq<Double>) -> (int, Double)
    decreases energies.len(),
{
    if energies.len() == 0 {
        (0, Double { bits: 0x7fef_ffff_ffff_ffff })
    } else {
        let best = quietest(energies.drop_last());
        if energies.last().less(best.1) {
            (energies.len() - 1, energies.last())
        } else {
            best
        }
    }
}

/// Spans moved from window time to session time.
pub open spec fn shifted(spans: Seq<SpeechSpan>, by: int) -> Seq<SpeechSpan> {
    spans.map_values(
        |s: SpeechSpan|
            SpeechSpan { start_ms: (s.start_ms + by) as i64, end_ms: (s.end_ms + by) as i64 },
    )
}

/// Where the speech that ends in span `i` begins, when pauses of at most
/// `gap` milliseconds do not interrupt it.
pub open spec fn joined_start(spans: Seq<SpeechSpan>, i: int, gap: int) -> int
    decreases i,
{
    if i > 0 && i < spans.len() && spans[i].start_ms - spans[i - 1].end_ms <= gap {
        joined_start(spans, i - 1, gap)
    } else {
        spans[i].start_ms as int
    }
}

impl SegmenterView {
    pub open spec fn history_max(self) -> int {
        samples_in(self.cfg.max_utterance_ms + HISTORY_MARGIN_MS)
    }

    /// Position in the history of session time `ms`.
    pub open spec fn sample_index(self, ms: int) -> int {
        let history_start = self.audio - ms_of(self.history.len() as int);
        smaller(samples_in(larger(ms - history_start, 0)), self.history.len() as int)
    }

    /// A frame taken in: time advances; history, utterance and energies grow.
    pub open spec fn accepted(
        self,
        samples: Seq<Single>,
        levels: Seq<(String, SourceKind, FrameEnergy)>,
    ) -> SegmenterView {
        let audio = self.audio + ms_of(samples.len() as int);
        let heard = level_energies(levels);
        let history = self.history + samples;
        SegmenterView {
            audio,
            ring: recent_energies(
                self.ring + dated(heard, self.audio),
                audio,
            ),
            history: if history.len() > self.history_max() {
                history.skip(history.len() - self.history_max())
            } else {
                history
            },
            utt: if self.in_speech {
                self.utt + samples
            } else {
                self.utt
            },
            share: if self.in_speech {
                self.share + heard
            } else {
                self.share
            },
            fed: self.fed + samples.len(),
            ..self
        }
    }

    /// The action that calls off an outstanding preview.
    pub open spec fn abort_actions(self) -> Seq<ActionView> {
        match self.preview {
            Some(p) => seq![ActionView::Aborted(p)],
            None => Seq::empty(),
        }
    }

    /// The end that an utterance gets when `end` is proposed for it: within the
    /// audio and after its start; but where that is much shorter than the
    /// utterance's audio, the end of the audio.
    pub open spec fn settled_end(self, end: int) -> int {
        let utt_ms = ms_of(self.utt.len() as int);
        let e = larger(smaller(larger(end, self.utt_start + 1), self.audio), self.utt_start);
        if e - self.utt_start < utt_ms * 6 / 10 {
            larger(smaller(self.utt_start + utt_ms, self.audio), self.utt_start)
        } else {
            e
        }
    }

    /// Whether the current utterance is long enough to be recognised.
    pub open spec fn worth_recognising(self) -> bool {
        ms_of(self.utt.len() as int) >= self.cfg.min_speech_ms && self.utt.len() > 0
    }

    /// The current utterance ended at (about) `end`.
    pub open spec fn finalized(self, end: int) -> SegmenterView {
        let e = self.settled_end(end);
        SegmenterView {
            preview: None,
            total_speech: if self.worth_recognising() {
                self.total_speech + (e - self.utt_start)
            } else {
                self.total_speech
            },
            last_final_end: if self.worth_recognising() {
                e
            } else {
                self.last_final_end
            },
            in_speech: false,
            utt: Seq::empty(),
            share: Seq::empty(),
            last_partial: 0,
            ..self
        }
    }

    pub open spec fn finalized_actions(self, end: int) -> Seq<ActionView> {
        let e = self.settled_end(end);
        self.abort_actions() + if self.worth_recognising() {
            seq![
                ActionView::Job(
                    JobView::Final {
                        utt_id: self.utt_id,
                        samples: self.utt,
                        start: self.utt_start,
                        end: e,
                        share: self.share,
                    },
                ),
                ActionView::Ended(e),
            ]
        } else {
            Seq::empty()
        }
    }

    /// Where a new utterance begins when `start` is proposed for it: never
    /// before the end of the last one.
    pub open spec fn settled_start(self, start: int) -> int {
        larger(start, self.last_final_end)
    }

    /// A new utterance begun at (about) `start`.
    pub open spec fn started(self, start: int) -> SegmenterView {
        let s = self.settled_start(start);
        SegmenterView {
            utt: self.history.skip(self.sample_index(s)),
            utt_start: s,
            utt_id: self.utt_id + 1,
            in_speech: true,
            last_partial: 0,
            preview: None,
            last_speech_end: s,
            last_seen: self.audio,
            share: energies_since(self.ring, s),
            ..self
        }
    }

    pub open spec fn too_long(self) -> bool {
        self.in_speech && ms_of(self.utt.len() as int) >= self.cfg.max_utterance_ms
    }

    /// How many samples at the end of the utterance are searched for a place to
    /// cut it.
    pub open spec fn search_len(self) -> int {
        samples_in(smaller(3000, ms_of(self.utt.len() as int)))
    }

    /// The places where the utterance can be cut: every 100 ms of the searched
    /// part, as long as 200 ms follow.
    pub open spec fn candidates(self) -> int {
        if self.search_len() < 3200 {
            0
        } else {
            (self.search_len() - 3200) / 1600 + 1
        }
    }

    pub open spec fn candidate(self, k: int) -> int {
        self.utt.len() - self.search_len() + k * 1600
    }

    /// The utterance cut at sample `at`: what is before is to be recognised, what
    /// follows goes on as a new utterance.
    pub open spec fn split(self, at: int) -> SegmenterView {
        let split_ms = self.utt_start + ms_of(at);
        let emits = ms_of(at) >= self.cfg.min_speech_ms;
        SegmenterView {
            preview: None,
            total_speech: if emits {
                self.total_speech + ms_of(at)
            } else {
                self.total_speech
            },
            last_final_end: if emits {
                split_ms
            } else {
                self.last_final_end
            },
            utt_id: self.utt_id + 1,
            utt: self.utt.skip(at),
            utt_start: split_ms,
            in_speech: self.utt.len() > at,
            share: Seq::empty(),
            last_partial: 0,
            last_speech_end: split_ms,
            last_seen: self.audio,
            ..self
        }
    }

    pub open spec fn split_actions(self, at: int) -> Seq<ActionView> {
        let split_ms = self.utt_start + ms_of(at);
        self.abort_actions() + if ms_of(at) >= self.cfg.min_speech_ms {
            seq![
                ActionView::Job(
                    JobView::Final {
                        utt_id: self.utt_id,
                        samples: self.utt.take(at),
                        start: self.utt_start,
                        end: split_ms,
                        share: self.share,
                    },
                ),
                ActionView::Ended(split_ms),
            ]
        } else {
            Seq::empty()
        } + if self.utt.len() > at {
            seq![ActionView::Started(split_ms)]
        } else {
            Seq::empty()
        }
    }

    /// Session time at which the window for detection begins.
    pub open spec fn window_start(self) -> int {
        if self.in_speech {
            smaller(self.utt_start, self.audio)
        } else {
            larger(self.audio - 1500, 0)
        }
    }

    pub open spec fn window(self) -> Seq<Single> {
        self.history.skip(self.sample_index(self.window_start()))
    }

    /// Whether speech goes on up to (about) now.
    pub open spec fn speech_now(self, spans: Seq<SpeechSpan>) -> bool {
        spans.len() > 0 && spans.last().end_ms >= self.audio - 450
    }

    /// What the detected spans (in session time) say about when speech was
    /// last heard.
    pub open spec fn noted(self, spans: Seq<SpeechSpan>) -> SegmenterView {
        SegmenterView {
            last_seen: if self.speech_now(spans) {
                self.audio
            } else {
                self.last_seen
            },
            last_speech_end: if spans.len() > 0 {
                larger(self.last_speech_end, spans.last().end_ms as int)
            } else {
                self.last_speech_end
            },
            ..self
        }
    }

    /// Where an utterance that the spans show begins.
    pub open spec fn onset(self, spans: Seq<SpeechSpan>) -> int {
        larger(
            joined_start(spans, spans.len() - 1, self.cfg.min_silence_ms + 250) - PRE_ROLL_MS,
            0,
        )
    }

    /// Whether the current utterance has been silent for long enough.
    pub open spec fn gone_silent(self, spans: Seq<SpeechSpan>) -> bool {
        !self.speech_now(spans) && self.audio - self.last_seen >= self.cfg.min_silence_ms
    }

    /// The reaction to detected spans (in session time).
    pub open spec fn reacted(self, spans: Seq<SpeechSpan>) -> SegmenterView {
        let v = self.noted(spans);
        if !self.in_speech {
            if self.speech_now(spans) {
                v.started(self.onset(spans))
            } else {
                v
            }
        } else if spans.len() >= 2 {
            v.finalized(larger(spans[spans.len() - 2].end_ms as int, self.utt_start + 1))
        } else if v.gone_silent(spans) {
            v.finalized(larger(v.last_speech_end, self.utt_start + 1))
        } else {
            v
        }
    }

    pub open spec fn reacted_actions(self, spans: Seq<SpeechSpan>) -> Seq<ActionView> {
        let v = self.noted(spans);
        if !self.in_speech {
            if self.speech_now(spans) {
                seq![ActionView::Started(v.settled_start(self.onset(spans)))]
            } else {
                Seq::empty()
            }
        } else if spans.len() >= 2 {
            v.finalized_actions(larger(spans[spans.len() - 2].end_ms as int, self.utt_start + 1))
        } else if v.gone_silent(spans) {
            v.finalized_actions(larger(v.last_speech_end, self.utt_start + 1))
        } else {
            Seq::empty()
        }
    }

    pub open spec fn preview_due(self) -> bool {
        self.live_preview && self.in_speech && self.audio - self.last_partial >= PARTIAL_STEP_MS
    }

    /// A preview asked for, if one is due.
    pub open spec fn previewed(self) -> SegmenterView {
        if self.preview_due() {
            SegmenterView {
                last_partial: self.audio,
                preview: Some(self.previews),
                previews: self.previews + 1,
                ..self
            }
        } else {
            self
        }
    }

    pub open spec fn previewed_actions(self) -> Seq<ActionView> {
        if self.preview_due() {
            seq![
                ActionView::Job(
                    JobView::Partial {
                        utt_id: self.utt_id,
                        samples: self.utt,
                        start: self.utt_start,
                        preview: self.previews,
                    },
                ),
            ]
        } else {
            Seq::empty()
        }
    }
}

impl SegmenterView {
    /// What holds between any two steps: no buffer holds, and no time lies
    /// beyond, more than the audio taken in; utterances do not reach back before
    /// the end of the last one; speech is counted once.
    pub open spec fn wf(self) -> bool {
        &&& self.history_max() <= MAX_SAMPLES
        &&& 0 <= self.fed <= MAX_SAMPLES
        &&& 0 <= self.audio
        &&& 16 * self.audio <= self.fed
        &&& self.history.len() == smaller(self.fed, self.history_max())
        &&& 0 <= self.last_final_end
        &&& 0 <= self.total_speech <= self.last_final_end
        &&& 16 * self.last_final_end <= self.fed
        &&& 0 <= self.utt_start
        &&& 16 * self.utt_start + self.utt.len() <= self.fed
        &&& self.in_speech ==> self.last_final_end <= self.utt_start
        &&& !self.in_speech ==> self.utt.len() == 0
        &&& -VAD_STEP_MS <= self.last_vad <= self.audio
        &&& 0 <= self.last_partial <= self.audio
        &&& 0 <= self.last_seen <= self.audio
        &&& 0 <= self.last_speech_end <= self.fed
        &&& 0 <= self.utt_id <= 2 * self.fed
        &&& 0 <= self.previews <= self.fed
        &&& forall|i: int| 0 <= i < self.ring.len() ==> 0 <= (#[trigger] self.ring[i]).0 <= self.audio
    }
}

proof fn lemma_recent_energies(ring: Seq<(int, SourceKind, Single)>, now: int)
    ensures
        recent_energies(ring, now).len() <= ring.len(),
        recent_energies(ring, now) == ring.skip(ring.len() - recent_energies(ring, now).len()),
    decreases ring.len(),
{
    if ring.len() > 0 && now - ring[0].0 > ENERGY_RING_MS {
        lemma_recent_energies(ring.drop_first(), now);
        let r = recent_energies(ring, now);
        assert(ring.skip(ring.len() - r.len()) =~= ring.drop_first().skip(
            ring.drop_first().len() - r.len(),
        ));
    } else {
        assert(ring.skip(0) =~= ring);
    }
}

fn copied(s: &[Single]) -> (r: Vec<Single>)
    ensures
        r@ == s@,
{
    let mut r: Vec<Single> = Vec::new();
    r.extend_from_slice(s);
    proof {
        assert(r@ =~= s@);
    }
    r
}

fn ms_of_len(n: usize) -> (r: i64)
    ensures
        r == ms_of(n as int),
        r == n / 16,
{
    (n / 16) as i64
}

fn max_ms(a: i64, b: i64) -> (r: i64)
    ensures
        r == larger(a as int, b as int),
{
    if a >= b {
        a
    } else {
        b
    }
}

fn min_ms(a: i64, b: i64) -> (r: i64)
    ensures
        r == smaller(a as int, b as int),
{
    if a <= b {
        a
    } else {
        b
    }
}

fn append_samples(v: &mut Vec<Single>, samples: &[Single])
    ensures
        final(v)@ == old(v)@ + samples@,
{
    v.extend_from_slice(samples);
    proof {
        assert(v@ =~= old(v)@ + samples@);
    }
}

fn append_levels(share: &mut SourceShare, levels: &[(String, SourceKind, FrameEnergy)])
    ensures
        final(share)@ == old(share)@ + level_energies(levels@),
{
    let n: usize = levels.len();
    let mut i: usize = 0;
    while i < n
        invariant
            i <= n == levels@.len(),
            share@ =~= old(share)@ + level_energies(levels@).take(i as int),
        decreases n - i,
    {
        share.add_frame(levels[i].1, levels[i].2);
        i += 1;
    }
    proof {
        assert(level_energies(levels@).take(n as int) =~= level_energies(levels@));
    }
}

fn remember_levels(
    ring: &mut VecDeque<(i64, SourceKind, Single)>,
    at: i64,
    levels: &[(String, SourceKind, FrameEnergy)],
)
    ensures
        ring_view(final(ring)@) == ring_view(old(ring)@) + dated(level_energies(levels@), at as int),
{
    let n: usize = levels.len();
    let ghost heard = level_energies(levels@);
    let mut i: usize = 0;
    proof {
        assert(ring_view(ring@) =~= ring_view(old(ring)@) + dated(heard.take(0), at as int));
    }
    while i < n
        invariant
            i <= n == levels@.len(),
            heard == level_energies(levels@),
            ring_view(ring@) == ring_view(old(ring)@) + dated(heard.take(i as int), at as int),
        decreases n - i,
    {
        let ghost before = ring_view(ring@);
        ring.push_back((at, levels[i].1, levels[i].2.rms));
        proof {
            assert(ring_view(ring@) =~= before.push((at as int, heard[i as int].0, heard[i as int].1)));
            assert(dated(heard.take(i + 1), at as int) =~= dated(heard.take(i as int), at as int).push(
                (at as int, heard[i as int].0, heard[i as int].1),
            ));
            assert(ring_view(ring@) =~= ring_view(old(ring)@) + dated(
                heard.take(i + 1),
                at as int,
            ));
        }
        i += 1;
    }
    proof {
        assert(heard.take(n as int) =~= heard);
    }
}

fn forget_old(ring: &mut VecDeque<(i64, SourceKind, Single)>, now: i64)
    requires
        forall|k: int| 0 <= k < old(ring)@.len() ==> 0 <= (#[trigger] old(ring)@[k]).0 <= now,
    ensures
        ring_view(final(ring)@) == recent_energies(ring_view(old(ring)@), now as int),
{
    while ring.len() > 0 && now - ring[0].0 > ENERGY_RING_MS
        invariant
            forall|k: int| 0 <= k < ring@.len() ==> 0 <= (#[trigger] ring@[k]).0 <= now,
            recent_energies(ring_view(old(ring)@), now as int) == recent_energies(
                ring_view(ring@),
                now as int,
            ),
        decreases ring@.len(),
    {
        let ghost before = ring@;
        let _ = ring.pop_front();
        proof {
            assert(ring_view(before).drop_first() =~= ring_view(ring@));
            assert forall|k: int| 0 <= k < ring@.len() implies 0 <= (#[trigger] ring@[k]).0
                <= now by {
                assert(ring@[k] == before[k + 1]);
            }
        }
    }
}

/// The state machine that cuts audio into utterances.
pub struct Segmenter {
    vad: VadEngine,
    cfg: VadSettings,
    live_preview: bool,
    history: Vec<Single>,
    history_max: usize,
    audio_ms: i64,
    in_speech: bool,
    utt_id: u64,
    utt: Vec<Single>,
    utt_start_ms: i64,
    utt_preview: Option<u64>,
    previews: u64,
    share: SourceShare,
    single_source: Option<SourceKind>,
    energy_ring: VecDeque<(i64, SourceKind, Single)>,
    last_vad_ms: i64,
    last_partial_ms: i64,
    total_speech_ms: i64,
    last_speech_end_ms: i64,
    last_speech_seen_at: i64,
    last_finalized_end_ms: i64,
    fed: Ghost<int>,
}

pub open spec fn ring_view(ring: Seq<(i64, SourceKind, Single)>) -> Seq<(int, SourceKind, Single)> {
    ring.map_values(|e: (i64, SourceKind, Single)| (e.0 as int, e.1, e.2))
}

impl View for Segmenter {
    type V = SegmenterView;

    closed spec fn view(&self) -> SegmenterView {
        SegmenterView {
            vad: self.vad.state,
            cfg: self.cfg,
            live_preview: self.live_preview,
            history: self.history@,
            audio: self.audio_ms as int,
            in_speech: self.in_speech,
            utt_id: self.utt_id as int,
            utt: self.utt@,
            utt_start: self.utt_start_ms as int,
            preview: match self.utt_preview {
                Some(p) => Some(p as int),
                None => None,
            },
            previews: self.previews as int,
            share: self.share@,
            single_source: self.single_source,
            ring: ring_view(self.energy_ring@),
            last_vad: self.last_vad_ms as int,
            last_partial: self.last_partial_ms as int,
            total_speech: self.total_speech_ms as int,
            last_speech_end: self.last_speech_end_ms as int,
            last_seen: self.last_speech_seen_at as int,
            last_final_end: self.last_finalized_end_ms as int,
            fed: self.fed@,
        }
    }
}

impl Segmenter {
    /// The segmenter's state is consistent.
    pub closed spec fn wf(&self) -> bool {
        &&& self@.wf()
        &&& self.history_max == self@.history_max()
        &&& self.vad.cfg == self.cfg
    }

    pub fn new(cfg: &VadSettings, live_preview: bool) -> (r: Segmenter)
        requires
            (cfg.max_utterance_ms + HISTORY_MARGIN_MS) * 16 <= usize::MAX,
        ensures
            r.wf(),
            r@ == fresh(*cfg, live_preview),
    {
        let history_max: usize = ((cfg.max_utterance_ms as u64 + 3_000) * 16) as usize;
        let r = Segmenter {
            vad: VadEngine::new(cfg),
            cfg: *cfg,
            live_preview,
            history: Vec::new(),
            history_max,
            audio_ms: 0,
            in_speech: false,
            utt_id: 0,
            utt: Vec::new(),
            utt_start_ms: 0,
            utt_preview: None,
            previews: 0,
            share: SourceShare { frames: Vec::new() },
            single_source: None,
            energy_ring: VecDeque::new(),
            last_vad_ms: -VAD_STEP_MS,
            last_partial_ms: 0,
            total_speech_ms: 0,
            last_speech_end_ms: 0,
            last_speech_seen_at: 0,
            last_finalized_end_ms: 0,
            fed: Ghost(0),
        };
        proof {
            assert(ring_view(r.energy_ring@) =~= Seq::empty());
        }
        r
    }

    /// Says that the session has one source only.
    pub fn set_single_source(&mut self, kind: Option<SourceKind>)
        requires
            old(self).wf(),
        ensures
            final(self).wf(),
            final(self)@ == (SegmenterView { single_source: kind, ..old(self)@ }),
    {
        self.single_source = kind;
    }

    pub fn vad_name(&self) -> (r: &'static str)
        ensures
            r@ == "energy"@,
    {
        self.vad.name()
    }

    /// Duration of the audio taken in.
    pub fn audio_ms(&self) -> (r: i64)
        ensures
            r == self@.audio,
    {
        self.audio_ms
    }

    /// Total duration of the utterances handed on.
    pub fn total_speech_ms(&self) -> (r: i64)
        ensures
            r == self@.total_speech,
    {
        self.total_speech_ms
    }

    pub fn is_in_speech(&self) -> (r: bool)
        ensures
            r == self@.in_speech,
    {
        self.in_speech
    }

    /// Where the current utterance began.
    pub fn utt_start_ms(&self) -> (r: i64)
        ensures
            r == self@.utt_start,
    {
        self.utt_start_ms
    }

    /// Duration of the audio of the current utterance.
    pub fn utt_ms(&self) -> (r: i64)
        ensures
            r == ms_of(self@.utt.len() as int),
    {
        ms_of_len(self.utt.len())
    }

    fn sample_index(&self, abs_ms: i64) -> (r: usize)
        requires
            self.wf(),
            0 <= abs_ms <= MAX_SAMPLES,
        ensures
            r == self@.sample_index(abs_ms as int),
            r <= self@.history.len(),
    {
        let len: usize = self.history.len();
        let history_start: i64 = self.audio_ms - ms_of_len(len);
        let rel: i64 = max_ms(abs_ms - history_start, 0);
        let at: i128 = rel as i128 * 16;
        if at <= len as i128 {
            at as usize
        } else {
            len
        }
    }

    /// Takes in a frame.
    fn accept(&mut self, samples: &[Single], levels: &[(String, SourceKind, FrameEnergy)])
        requires
            old(self).wf(),
            old(self)@.fed + samples@.len() <= MAX_SAMPLES,
        ensures
            final(self).wf(),
            final(self)@ == old(self)@.accepted(samples@, levels@),
    {
        let ghost before = self@;
        let frame_start_ms: i64 = self.audio_ms;
        let n: usize = samples.len();
        self.audio_ms = self.audio_ms + ms_of_len(n);
        remember_levels(&mut self.energy_ring, frame_start_ms, levels);
        proof {
            let grown = before.ring + dated(level_energies(levels@), before.audio);
            assert forall|k: int| 0 <= k < self.energy_ring@.len() implies 0 <= (
            #[trigger] self.energy_ring@[k]).0 <= self.audio_ms by {
                assert(ring_view(self.energy_ring@)[k] == grown[k]);
                if k < before.ring.len() {
                    assert(grown[k] == before.ring[k]);
                }
            }
        }
        forget_old(&mut self.energy_ring, self.audio_ms);
        append_samples(&mut self.history, samples);
        let len: usize = self.history.len();
        if len > self.history_max {
            self.history = self.history.split_off(len - self.history_max);
        }
        if self.in_speech {
            append_samples(&mut self.utt, samples);
            append_levels(&mut self.share, levels);
        }
        proof {
            self.fed@ = self.fed@ + samples@.len();
            let after = before.accepted(samples@, levels@);
            let all = before.history + samples@;
            if all.len() > before.history_max() {
                assert(self.history@ =~= all.skip(all.len() - before.history_max()));
            }
            lemma_recent_energies(
                before.ring + dated(level_energies(levels@), before.audio),
                after.audio,
            );
            assert(self@ =~= after);
        }
    }

    /// Ends the current utterance at (about) `end_ms`.
    pub fn finalize(&mut self, end_ms: i64, actions: &mut Vec<SegmenterAction>)
        requires
            old(self).wf(),
        ensures
            final(self).wf(),
            final(self)@ == old(self)@.finalized(end_ms as int),
            action_views(final(actions)@) == action_views(old(actions)@)
                + old(self)@.finalized_actions(end_ms as int),
    {
        let ghost v = self@;
        let ghost given = action_views(actions@);
        if let Some(preview) = self.utt_preview {
            actions.push(SegmenterAction::PreviewAborted { preview });
        }
        self.utt_preview = None;
        proof {
            assert(action_views(actions@) =~= given + v.abort_actions());
        }
        let ghost aborted = action_views(actions@);
        let utt_ms: i64 = ms_of_len(self.utt.len());
        let mut utt: Vec<Single> = Vec::new();
        std::mem::swap(&mut self.utt, &mut utt);
        let mut share = SourceShare::empty();
        std::mem::swap(&mut self.share, &mut share);
        if utt_ms >= self.cfg.min_speech_ms as i64 && utt.len() > 0 {
            let start: i64 = self.utt_start_ms;
            let mut end: i64 = max_ms(min_ms(max_ms(end_ms, start + 1), self.audio_ms), start);
            if end - start < utt_ms * 6 / 10 {
                end = max_ms(min_ms(start + utt_ms, self.audio_ms), start);
            }
            self.total_speech_ms = self.total_speech_ms + (end - start);
            self.last_finalized_end_ms = end;
            actions.push(
                SegmenterAction::Job(
                    AsrJob::Final {
                        utt_id: self.utt_id,
                        samples: utt,
                        start_ms: start,
                        end_ms: end,
                        share,
                    },
                ),
            );
            actions.push(SegmenterAction::SpeechEnded { end_ms: end });
        }
        self.in_speech = false;
        self.last_partial_ms = 0;
        proof {
            assert(self@ =~= v.finalized(end_ms as int));
            assert(action_views(actions@) =~= given + v.finalized_actions(end_ms as int));
        }
    }

    /// Begins an utterance at (about) `start_ms`.
    fn start_utterance(&mut self, start_ms: i64, actions: &mut Vec<SegmenterAction>)
        requires
            old(self).wf(),
            !old(self)@.in_speech,
            0 <= start_ms,
            16 * start_ms <= old(self)@.fed,
            old(self)@.utt_id < 2 * old(self)@.fed,
        ensures
            final(self).wf(),
            final(self)@ == old(self)@.started(start_ms as int),
            action_views(final(actions)@) == action_views(old(actions)@).push(
                ActionView::Started(old(self)@.settled_start(start_ms as int)),
            ),
    {
        let ghost v = self@;
        let ghost given = action_views(actions@);
        let start: i64 = max_ms(start_ms, self.last_finalized_end_ms);
        let idx: usize = self.sample_index(start);
        let len: usize = self.history.len();
        self.utt = copied(vstd::slice::slice_subrange(self.history.as_slice(), idx, len));
        self.utt_start_ms = start;
        self.utt_id = self.utt_id + 1;
        self.in_speech = true;
        self.last_partial_ms = 0;
        self.utt_preview = None;
        self.last_speech_end_ms = start;
        self.last_speech_seen_at = self.audio_ms;
        self.share = share_since(&self.energy_ring, start);
        actions.push(SegmenterAction::SpeechStarted { start_ms: start });
        proof {
            lemma_tail_fits(v, start as int);
            assert(v.history.skip(idx as int) =~= v.history.subrange(idx as int, len as int));
            assert(self@ =~= v.started(start_ms as int));
            assert(action_views(actions@) =~= given.push(ActionView::Started(start as int)));
        }
    }
}

/// The energies of the ring from `start` on.
fn share_since(ring: &VecDeque<(i64, SourceKind, Single)>, start: i64) -> (r: SourceShare)
    ensures
        r@ == energies_since(ring_view(ring@), start as int),
{
    let mut share = SourceShare::empty();
    let n: usize = ring.len();
    let ghost all = ring_view(ring@);
    let mut i: usize = 0;
    while i < n
        invariant
            i <= n == ring@.len(),
            all == ring_view(ring@),
            share@ == energies_since(all.take(i as int), start as int),
        decreases n - i,
    {
        proof {
            assert(all.take(i + 1).drop_last() =~= all.take(i as int));
        }
        let (ms, kind, rms) = ring[i];
        if ms >= start {
            share.add_frame(kind, FrameEnergy { rms, peak: rms, db: Single::zero() });
        }
        i += 1;
    }
    proof {
        assert(all.take(n as int) =~= all);
    }
    share
}

/// What the history holds from `ms` on does not reach beyond the audio taken in.
proof fn lemma_tail_fits(v: SegmenterView, ms: int)
    requires
        v.wf(),
        0 <= ms,
        16 * ms <= v.fed,
    ensures
        0 <= v.sample_index(ms) <= v.history.len(),
        16 * ms + (v.history.len() - v.sample_index(ms)) <= v.fed,
{
    let len = v.history.len() as int;
    assert(v.history_max() == 16 * (v.cfg.max_utterance_ms + HISTORY_MARGIN_MS));
    assert(16 * v.audio + len % 16 <= v.fed);
    let start = v.audio - ms_of(len);
    assert(ms_of(len) == len / 16);
    if ms >= start {
        assert(samples_in(ms - start) == 16 * (ms - start));
    }
}

/// Sums of squares of the places where an utterance can be cut.
pub open spec fn cut_energies<L, P, S, E>(
    v: SegmenterView,
    acoustics: &Acoustics<L, P, S, E>,
    energies: Seq<Double>,
) -> bool where
    L: Fn(&[Single]) -> Single,
    P: Fn(&[Single]) -> Single,
    S: Fn(Single, Single) -> Single,
    E: Fn(&[Single]) -> Double,
 {
    &&& energies.len() == v.candidates()
    &&& forall|k: int|
        0 <= k < energies.len() ==> acoustics.energy_is(
            v.utt.subrange(v.candidate(k), v.candidate(k) + 3200),
            #[trigger] energies[k],
        )
}

/// From `v` to `after`: an utterance that has become too long is cut at the
/// quietest place of its last three seconds, or ended if it is too short for
/// that.
pub open spec fn length_checked<L, P, S, E>(
    v: SegmenterView,
    acoustics: &Acoustics<L, P, S, E>,
    after: SegmenterView,
    actions: Seq<ActionView>,
) -> bool where
    L: Fn(&[Single]) -> Single,
    P: Fn(&[Single]) -> Single,
    S: Fn(Single, Single) -> Single,
    E: Fn(&[Single]) -> Double,
 {
    if !v.too_long() {
        after == v && actions == Seq::<ActionView>::empty()
    } else if v.search_len() < 8000 {
        after == v.finalized(v.audio) && actions == v.finalized_actions(v.audio)
    } else {
        exists|energies: Seq<Double>|
            {
                &&& #[trigger] cut_energies(v, acoustics, energies)
                &&& after == v.split(v.candidate(quietest(energies).0))
                &&& actions == v.split_actions(v.candidate(quietest(energies).0))
            }
    }
}

/// From `v` to `after`: speech looked for in the current window, if that is at
/// least half a second long.
pub open spec fn listened<L, P, S, E>(
    v: SegmenterView,
    acoustics: &Acoustics<L, P, S, E>,
    after: SegmenterView,
    actions: Seq<ActionView>,
) -> bool where
    L: Fn(&[Single]) -> Single,
    P: Fn(&[Single]) -> Single,
    S: Fn(Single, Single) -> Single,
    E: Fn(&[Single]) -> Double,
 {
    if v.window().len() < 8000 {
        after == v && actions == Seq::<ActionView>::empty()
    } else {
        exists|state: EnergyState, spans: Seq<SpeechSpan>|
            {
                let heard = shifted(overlaps_clamped(spans), v.window_start());
                let w = SegmenterView { vad: state, ..v };
                &&& #[trigger] acoustics.detects(
                    v.window(),
                    v.cfg.energy_threshold_db,
                    v.cfg.min_speech_ms,
                    v.cfg.min_silence_ms,
                    v.cfg.speech_pad_ms,
                    v.vad,
                    v.in_speech,
                    state,
                    spans,
                )
                &&& after == w.reacted(heard)
                &&& actions == w.reacted_actions(heard)
            }
    }
}

/// [`listened`] where it is time to.
pub open spec fn listened_if_due<L, P, S, E>(
    v: SegmenterView,
    acoustics: &Acoustics<L, P, S, E>,
    after: SegmenterView,
    actions: Seq<ActionView>,
) -> bool where
    L: Fn(&[Single]) -> Single,
    P: Fn(&[Single]) -> Single,
    S: Fn(Single, Single) -> Single,
    E: Fn(&[Single]) -> Double,
 {
    if v.audio - v.last_vad >= VAD_STEP_MS {
        listened(SegmenterView { last_vad: v.audio, ..v }, acoustics, after, actions)
    } else {
        after == v && actions == Seq::<ActionView>::empty()
    }
}

/// One step: the frame is taken in, an overlong utterance cut, speech looked
/// for, and a preview asked for.
pub open spec fn stepped<L, P, S, E>(
    v: SegmenterView,
    samples: Seq<Single>,
    levels: Seq<(String, SourceKind, FrameEnergy)>,
    acoustics: &Acoustics<L, P, S, E>,
    after: SegmenterView,
    actions: Seq<ActionView>,
) -> bool where
    L: Fn(&[Single]) -> Single,
    P: Fn(&[Single]) -> Single,
    S: Fn(Single, Single) -> Single,
    E: Fn(&[Single]) -> Double,
 {
    if samples.len() == 0 {
        after == v && actions == Seq::<ActionView>::empty()
    } else {
        exists|
            v1: SegmenterView,
            a1: Seq<ActionView>,
            v2: SegmenterView,
            a2: Seq<ActionView>,
        |
            {
                &&& #[trigger] length_checked(v.accepted(samples, levels), acoustics, v1, a1)
                &&& #[trigger] listened_if_due(v1, acoustics, v2, a2)
                &&& after == v2.previewed()
                &&& actions == a1 + a2 + v2.previewed_actions()
            }
    }
}

/// The end of the session: speech looked for once more, then the current
/// utterance, if any, ended.
pub open spec fn flushed<L, P, S, E>(
    v: SegmenterView,
    acoustics: &Acoustics<L, P, S, E>,
    after: SegmenterView,
    actions: Seq<ActionView>,
) -> bool where
    L: Fn(&[Single]) -> Single,
    P: Fn(&[Single]) -> Single,
    S: Fn(Single, Single) -> Single,
    E: Fn(&[Single]) -> Double,
 {
    if !v.in_speech {
        after == v && actions == Seq::<ActionView>::empty()
    } else {
        exists|v1: SegmenterView, a1: Seq<ActionView>|
            {
                let end = smaller(larger(v1.last_speech_end, v1.utt_start + 1), v1.audio);
                &&& #[trigger] listened(v, acoustics, v1, a1)
                &&& if v1.in_speech {
                    after == v1.finalized(end) && actions == a1 + v1.finalized_actions(end)
                } else {
                    after == v1 && actions == a1
                }
            }
    }
}

impl Segmenter {
    /// Cuts the current utterance at sample `at`.
    fn split_at(&mut self, at: usize, actions: &mut Vec<SegmenterAction>)
        requires
            old(self).wf(),
            old(self)@.in_speech,
            at <= old(self)@.utt.len(),
            old(self)@.utt_id < 2 * old(self)@.fed,
        ensures
            final(self).wf(),
            final(self)@ == old(self)@.split(at as int),
            action_views(final(actions)@) == action_views(old(actions)@)
                + old(self)@.split_actions(at as int),
    {
        let ghost v = self@;
        let ghost given = action_views(actions@);
        let head_ms: i64 = ms_of_len(at);
        let split_ms: i64 = self.utt_start_ms + head_ms;
        let tail = self.utt.split_off(at);
        let mut head: Vec<Single> = tail;
        std::mem::swap(&mut self.utt, &mut head);
        let mut share = SourceShare::empty();
        std::mem::swap(&mut self.share, &mut share);
        proof {
            assert(head@ =~= v.utt.take(at as int));
            assert(self.utt@ =~= v.utt.skip(at as int));
        }
        if let Some(preview) = self.utt_preview {
            actions.push(SegmenterAction::PreviewAborted { preview });
        }
        self.utt_preview = None;
        if head_ms >= self.cfg.min_speech_ms as i64 {
            self.total_speech_ms = self.total_speech_ms + head_ms;
            self.last_finalized_end_ms = split_ms;
            actions.push(
                SegmenterAction::Job(
                    AsrJob::Final {
                        utt_id: self.utt_id,
                        samples: head,
                        start_ms: self.utt_start_ms,
                        end_ms: split_ms,
                        share,
                    },
                ),
            );
            actions.push(SegmenterAction::SpeechEnded { end_ms: split_ms });
        }
        self.utt_id = self.utt_id + 1;
        self.utt_start_ms = split_ms;
        self.in_speech = self.utt.len() > 0;
        self.last_partial_ms = 0;
        self.last_speech_end_ms = split_ms;
        self.last_speech_seen_at = self.audio_ms;
        if self.in_speech {
            actions.push(SegmenterAction::SpeechStarted { start_ms: split_ms });
        }
        proof {
            assert(self@ =~= v.split(at as int));
            assert(action_views(actions@) =~= given + v.split_actions(at as int));
        }
    }

    /// Cuts an overlong utterance at the quietest place of its last three
    /// seconds.
    fn force_split<L, P, S, E>(
        &mut self,
        acoustics: &Acoustics<L, P, S, E>,
        actions: &mut Vec<SegmenterAction>,
    ) where
        L: Fn(&[Single]) -> Single,
        P: Fn(&[Single]) -> Single,
        S: Fn(Single, Single) -> Single,
        E: Fn(&[Single]) -> Double,

        requires
            old(self).wf(),
            old(self)@.too_long(),
            old(self)@.utt_id < 2 * old(self)@.fed,
            acoustics.total(),
        ensures
            final(self).wf(),
            exists|done: Seq<ActionView>|
                #[trigger] length_checked(old(self)@, acoustics, final(self)@, done)
                    && action_views(final(actions)@) == action_views(old(actions)@) + done,
    {
        let ghost v = self@;
        let len: usize = self.utt.len();
        let ms: i64 = min_ms(3_000, ms_of_len(len));
        let search: usize = ms as usize * 16;
        assert(search == v.search_len());
        if search < 8_000 {
            let end: i64 = self.audio_ms;
            self.finalize(end, actions);
            assert(length_checked(v, acoustics, self@, v.finalized_actions(v.audio)));
            return;
        }
        let from: usize = len - search;
        let mut best: usize = from;
        let mut best_energy = Double { bits: 0x7fef_ffff_ffff_ffff };
        let mut i: usize = from;
        let ghost mut energies: Seq<Double> = Seq::empty();
        while len - i >= 3_200
            invariant
                self@ == v,
                self.wf(),
                len == self.utt@.len(),
                len <= MAX_SAMPLES,
                search == v.search_len(),
                8_000 <= search <= len,
                from == len - search,
                acoustics.total(),
                i == from + energies.len() * 1600,
                energies.len() <= v.candidates(),
                i + 1600 <= len,
                best_energy == quietest(energies).1,
                best == v.candidate(quietest(energies).0),
                from <= best <= len,
                forall|k: int|
                    0 <= k < energies.len() ==> acoustics.energy_is(
                        v.utt.subrange(v.candidate(k), v.candidate(k) + 3200),
                        #[trigger] energies[k],
                    ),
            decreases len - i,
        {
            let window = vstd::slice::slice_subrange(self.utt.as_slice(), i, i + 3_200);
            let energy = (acoustics.energy)(window);
            proof {
                assert(acoustics.energy_is(v.utt.subrange(i as int, i + 3200), energy));
                let before = energies;
                energies = energies.push(energy);
                assert(energies.drop_last() =~= before);
                assert(v.candidate(energies.len() - 1) == i);
            }
            if energy.lt(best_energy) {
                best_energy = energy;
                best = i;
            }
            i = i + 1_600;
        }
        proof {
            assert(energies.len() == v.candidates());
            assert(cut_energies(v, acoustics, energies));
        }
        self.split_at(best, actions);
        proof {
            assert(length_checked(v, acoustics, self@, v.split_actions(best as int)));
        }
    }

    /// Looks for speech in the current window and reacts to what it shows.
    fn run_vad<L, P, S, E>(
        &mut self,
        acoustics: &Acoustics<L, P, S, E>,
        actions: &mut Vec<SegmenterAction>,
    ) where
        L: Fn(&[Single]) -> Single,
        P: Fn(&[Single]) -> Single,
        S: Fn(Single, Single) -> Single,
        E: Fn(&[Single]) -> Double,

        requires
            old(self).wf(),
            old(self)@.utt_id < 2 * old(self)@.fed || old(self)@.in_speech,
            acoustics.total(),
        ensures
            final(self).wf(),
            exists|done: Seq<ActionView>|
                #[trigger] listened(old(self)@, acoustics, final(self)@, done)
                    && action_views(final(actions)@) == action_views(old(actions)@) + done,
    {
        let ghost v = self@;
        let ghost given = action_views(actions@);
        let window_start: i64 = if self.in_speech {
            min_ms(self.utt_start_ms, self.audio_ms)
        } else {
            max_ms(self.audio_ms - 1_500, 0)
        };
        let idx: usize = self.sample_index(window_start);
        let len: usize = self.history.len();
        proof {
            lemma_tail_fits(v, window_start as int);
            assert(v.window() =~= v.history.subrange(idx as int, len as int));
        }
        if len - idx < 8_000 {
            proof {
                assert(given =~= given + Seq::<ActionView>::empty());
                assert(listened(v, acoustics, self@, Seq::<ActionView>::empty()));
            }
            return;
        }
        let window = vstd::slice::slice_subrange(self.history.as_slice(), idx, len);
        let in_speech: bool = self.in_speech;
        let spans = self.vad.detect(window, in_speech, acoustics);
        let ghost found = choose|s: Seq<SpeechSpan>|
            #[trigger] acoustics.detects(
                v.window(),
                v.cfg.energy_threshold_db,
                v.cfg.min_speech_ms,
                v.cfg.min_silence_ms,
                v.cfg.speech_pad_ms,
                v.vad,
                v.in_speech,
                self.vad.state,
                s,
            ) && spans@ == overlaps_clamped(s);
        let ghost w = SegmenterView { vad: self.vad.state, ..v };
        proof {
            assert(self@ =~= w);
        }
        let heard = shift_spans(&spans, window_start, Ghost(framed_ms(v.window())));
        self.react(&heard, actions);
        proof {
            let abs = shifted(overlaps_clamped(found), v.window_start());
            assert(listened(v, acoustics, self@, w.reacted_actions(abs)));
        }
    }

    /// Reacts to the spans of speech found in the current window.
    fn react(&mut self, spans: &Vec<SpeechSpan>, actions: &mut Vec<SegmenterAction>)
        requires
            old(self).wf(),
            old(self)@.utt_id < 2 * old(self)@.fed || old(self)@.in_speech,
            spans_within(spans@, 0, old(self)@.fed / 16),
        ensures
            final(self).wf(),
            final(self)@ == old(self)@.reacted(spans@),
            action_views(final(actions)@) == action_views(old(actions)@)
                + old(self)@.reacted_actions(spans@),
    {
        let ghost v = self@;
        let ghost given = action_views(actions@);
        let n: usize = spans.len();
        let now: i64 = self.audio_ms;
        let mut speech_now: bool = false;
        if n > 0 {
            let last_end: i64 = spans[n - 1].end_ms;
            speech_now = last_end >= now - 450;
            if speech_now {
                self.last_speech_seen_at = now;
            }
            self.last_speech_end_ms = max_ms(self.last_speech_end_ms, last_end);
        }
        proof {
            assert(speech_now == v.speech_now(spans@));
            assert(self@ =~= v.noted(spans@));
        }
        if !self.in_speech {
            if speech_now {
                let gap: i64 = self.cfg.min_silence_ms as i64 + 250;
                let start: i64 = start_of_joined(spans, gap, Ghost(v.fed / 16));
                let onset: i64 = max_ms(start - PRE_ROLL_MS, 0);
                self.start_utterance(onset, actions);
                proof {
                    assert(action_views(actions@) =~= given + v.reacted_actions(spans@));
                }
            } else {
                assert(given =~= given + v.reacted_actions(spans@));
            }
        } else if n >= 2 {
            let end: i64 = max_ms(spans[n - 2].end_ms, self.utt_start_ms + 1);
            self.finalize(end, actions);
        } else if !speech_now && now - self.last_speech_seen_at >= self.cfg.min_silence_ms as i64 {
            let end: i64 = max_ms(self.last_speech_end_ms, self.utt_start_ms + 1);
            self.finalize(end, actions);
        } else {
            assert(given =~= given + v.reacted_actions(spans@));
        }
    }

    /// Takes in a frame of 16 kHz mono audio with the levels of its sources and
    /// returns what is to be done.
    pub fn push_frame<L, P, S, E>(
        &mut self,
        samples: &[Single],
        levels: &[(String, SourceKind, FrameEnergy)],
        acoustics: &Acoustics<L, P, S, E>,
    ) -> (actions: Vec<SegmenterAction>) where
        L: Fn(&[Single]) -> Single,
        P: Fn(&[Single]) -> Single,
        S: Fn(Single, Single) -> Single,
        E: Fn(&[Single]) -> Double,

        requires
            old(self).wf(),
            old(self)@.fed + samples@.len() <= MAX_SAMPLES,
            acoustics.total(),
        ensures
            final(self).wf(),
            stepped(
                old(self)@,
                samples@,
                levels@,
                acoustics,
                final(self)@,
                action_views(actions@),
            ),
            final(self)@.fed == old(self)@.fed + samples@.len(),
    {
        let ghost v = self@;
        let mut actions: Vec<SegmenterAction> = Vec::new();
        proof {
            assert(action_views(actions@) =~= Seq::empty());
        }
        if samples.len() == 0 {
            return actions;
        }
        self.accept(samples, levels);
        let ghost v0 = self@;
        let ghost mut a1: Seq<ActionView> = Seq::empty();
        let utt_ms: i64 = ms_of_len(self.utt.len());
        if self.in_speech && utt_ms >= self.cfg.max_utterance_ms as i64 {
            self.force_split(acoustics, &mut actions);
            proof {
                a1 = choose|done: Seq<ActionView>|
                    #[trigger] length_checked(v0, acoustics, self@, done)
                        && action_views(actions@) == Seq::<ActionView>::empty() + done;
                assert(action_views(actions@) =~= a1);
            }
        }
        let ghost v1 = self@;
        let ghost mut a2: Seq<ActionView> = Seq::empty();
        assert(length_checked(v0, acoustics, v1, a1));
        assert(v1.utt_id < 2 * v1.fed && v1.previews < v1.fed && v1.fed == v0.fed);
        if self.audio_ms - self.last_vad_ms >= VAD_STEP_MS {
            self.last_vad_ms = self.audio_ms;
            let ghost w = self@;
            assert(w =~= (SegmenterView { last_vad: v1.audio, ..v1 }));
            self.run_vad(acoustics, &mut actions);
            proof {
                a2 = choose|done: Seq<ActionView>|
                    #[trigger] listened(w, acoustics, self@, done)
                        && action_views(actions@) == a1 + done;
            }
        } else {
            assert(a1 =~= a1 + a2);
        }
        let ghost v2 = self@;
        assert(listened_if_due(v1, acoustics, v2, a2));
        assert(v2.previews < v2.fed && v2.fed == v0.fed);
        if self.live_preview && self.in_speech && self.audio_ms - self.last_partial_ms
            >= PARTIAL_STEP_MS {
            self.last_partial_ms = self.audio_ms;
            let preview: u64 = self.previews;
            self.utt_preview = Some(preview);
            self.previews = self.previews + 1;
            actions.push(
                SegmenterAction::Job(
                    AsrJob::Partial {
                        utt_id: self.utt_id,
                        samples: copied(self.utt.as_slice()),
                        start_ms: self.utt_start_ms,
                        preview,
                    },
                ),
            );
        }
        proof {
            assert(self@ =~= v2.previewed());
            assert(action_views(actions@) =~= a1 + a2 + v2.previewed_actions());
        }
        actions
    }

    /// Ends the session: the current utterance is ended at once. Speech is looked
    /// for once more before, since the audio may stop between two regular runs.
    pub fn flush<L, P, S, E>(&mut self, acoustics: &Acoustics<L, P, S, E>) -> (actions: Vec<
        SegmenterAction,
    >) where
        L: Fn(&[Single]) -> Single,
        P: Fn(&[Single]) -> Single,
        S: Fn(Single, Single) -> Single,
        E: Fn(&[Single]) -> Double,

        requires
            old(self).wf(),
            acoustics.total(),
        ensures
            final(self).wf(),
            flushed(old(self)@, acoustics, final(self)@, action_views(actions@)),
            !final(self)@.in_speech,
    {
        let ghost v = self@;
        let mut actions: Vec<SegmenterAction> = Vec::new();
        proof {
            assert(action_views(actions@) =~= Seq::empty());
        }
        if self.in_speech {
            self.run_vad(acoustics, &mut actions);
            let ghost v1 = self@;
            let ghost a1 = action_views(actions@);
            proof {
                let done = choose|done: Seq<ActionView>|
                    #[trigger] listened(v, acoustics, v1, done)
                        && a1 == Seq::<ActionView>::empty() + done;
                assert(a1 =~= done);
                assert(listened(v, acoustics, v1, a1));
            }
            if self.in_speech {
                let end: i64 = min_ms(
                    max_ms(self.last_speech_end_ms, self.utt_start_ms + 1),
                    self.audio_ms,
                );
                self.finalize(end, &mut actions);
            }
        }
        actions
    }
}

/// Where the speech that ends in the last span begins.
fn start_of_joined(spans: &Vec<SpeechSpan>, gap: i64, Ghost(hi): Ghost<int>) -> (r: i64)
    requires
        spans@.len() > 0,
        spans_within(spans@, 0, hi),
        hi <= MAX_SAMPLES,
        gap <= MAX_SAMPLES,
    ensures
        r == joined_start(spans@, spans@.len() - 1, gap as int),
        0 <= r <= hi,
{
    let n: usize = spans.len();
    let mut i: usize = n - 1;
    while i > 0 && spans[i].start_ms - spans[i - 1].end_ms <= gap
        invariant
            i < n == spans@.len(),
            spans_within(spans@, 0, hi),
            hi <= MAX_SAMPLES,
            joined_start(spans@, n - 1, gap as int) == joined_start(spans@, i as int, gap as int),
        ensures
            i < n,
            joined_start(spans@, n - 1, gap as int) == spans@[i as int].start_ms,
        decreases i,
    {
        i -= 1;
    }
    spans[i].start_ms
}

/// Spans moved by `by` milliseconds.
fn shift_spans(spans: &Vec<SpeechSpan>, by: i64, Ghost(hi): Ghost<int>) -> (r: Vec<SpeechSpan>)
    requires
        spans_within(spans@, 0, hi),
        hi <= MAX_SAMPLES,
        0 <= by <= MAX_SAMPLES,
    ensures
        r@ == shifted(spans@, by as int),
        spans_within(r@, by as int, hi + by),
{
    let n: usize = spans.len();
    let mut out: Vec<SpeechSpan> = Vec::new();
    let mut i: usize = 0;
    while i < n
        invariant
            i <= n == spans@.len(),
            spans_within(spans@, 0, hi),
            hi <= MAX_SAMPLES,
            0 <= by <= MAX_SAMPLES,
            out@ == shifted(spans@, by as int).take(i as int),
            spans_within(out@, by as int, hi + by),
        decreases n - i,
    {
        let s = spans[i];
        out.push(SpeechSpan { start_ms: s.start_ms + by, end_ms: s.end_ms + by });
        proof {
            assert(out@ =~= shifted(spans@, by as int).take(i + 1));
        }
        i += 1;
    }
    proof {
        assert(out@ =~= shifted(spans@, by as int));
    }
    out
}

} // verus!
