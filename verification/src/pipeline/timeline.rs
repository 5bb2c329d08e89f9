//! What holds of the utterances of a whole session.
//!
//! Audio arrives in frames of whole milliseconds (16 samples each). Then
//! utterances follow one another on the session's time line without
//! overlapping, none is longer than allowed, and the speech counted never
//! exceeds the audio.

use vstd::prelude::*;
use crate::audio::capture::SourceKind;
use crate::audio::vad::Acoustics;
use crate::audio::vad::EnergyState;
use crate::audio::vad::FrameEnergy;
use crate::audio::vad::SpeechSpan;
use crate::audio::vad::frames_in;
use crate::audio::vad::framed_ms;
use crate::audio::vad::law_clamped_spans_are_apart;
use crate::audio::vad::law_padded_spans_stay_in_window;
use crate::audio::vad::overlaps_clamped;
use crate::audio::vad::spans_within;
use crate::audio::vad::speech_frames;
use crate::num::Double;
use crate::num::Single;
use crate::pipeline::segmenter::ActionView;
use crate::pipeline::segmenter::JobView;
use crate::pipeline::segmenter::MAX_SAMPLES;
use crate::pipeline::segmenter::SegmenterView;
use crate::pipeline::segmenter::cut_energies;
use crate::pipeline::segmenter::flushed;
use crate::pipeline::segmenter::fresh;
use crate::pipeline::segmenter::joined_start;
use crate::pipeline::segmenter::length_checked;
use crate::pipeline::segmenter::listened;
use crate::pipeline::segmenter::listened_if_due;
use crate::pipeline::segmenter::ms_of;
use crate::pipeline::segmenter::quietest;
use crate::pipeline::segmenter::shifted;
use crate::pipeline::segmenter::smaller;
use crate::pipeline::segmenter::stepped;
use crate::settings::VadSettings;
use crate::settings::default_vad;

verus! {

/// The segmenter's buffers and its time line agree to the sample.
pub open spec fn aligned(v: SegmenterView) -> bool {
    &&& 0 <= v.audio
    &&& v.fed == 16 * v.audio
    &&& v.fed <= MAX_SAMPLES
    &&& v.history.len() == smaller(v.fed, v.history_max())
    &&& 0 <= v.total_speech <= v.last_final_end <= v.audio
    &&& v.in_speech ==> v.last_final_end <= v.utt_start <= v.audio && v.utt.len() == 16 * (v.audio
        - v.utt_start)
    &&& !v.in_speech ==> v.utt.len() == 0
}

/// The current utterance is not longer than allowed.
pub open spec fn within_limit(v: SegmenterView) -> bool {
    v.in_speech ==> ms_of(v.utt.len() as int) <= v.cfg.max_utterance_ms
}

/// The settings with which the laws hold: some length is demanded of speech,
/// and at least three seconds are allowed for an utterance.
pub open spec fn sane(v: SegmenterView) -> bool {
    v.cfg.min_speech_ms >= 1 && v.cfg.max_utterance_ms >= 3000
}

/// The utterances among `actions` follow one another from `from` on, and the
/// last one ends at `to`. None begins before its predecessor ends; each is longer
/// than nothing, ends within the audio, lasts at most `cap`, at most as long as
/// its samples, and at least six tenths of that.
pub open spec fn utterances_in_order(
    actions: Seq<ActionView>,
    from: int,
    to: int,
    audio: int,
    cap: int,
) -> bool
    decreases actions.len(),
{
    if actions.len() == 0 {
        from == to
    } else {
        match actions[0] {
            ActionView::Job(JobView::Final { utt_id, samples, start, end, share }) => {
                &&& from <= start < end <= audio
                &&& end - start <= cap
                &&& end - start <= ms_of(samples.len() as int)
                &&& end - start >= ms_of(samples.len() as int) * 6 / 10
                &&& utterances_in_order(actions.drop_first(), end, to, audio, cap)
            },
            _ => utterances_in_order(actions.drop_first(), from, to, audio, cap),
        }
    }
}

/// Order carries over from one stretch of a session to the next: utterances of
/// consecutive steps form one time line.
pub proof fn law_utterances_stay_in_order(
    a: Seq<ActionView>,
    b: Seq<ActionView>,
    from: int,
    mid: int,
    to: int,
    audio_a: int,
    audio_b: int,
    cap: int,
)
    requires
        utterances_in_order(a, from, mid, audio_a, cap),
        utterances_in_order(b, mid, to, audio_b, cap),
        audio_a <= audio_b,
    ensures
        utterances_in_order(a + b, from, to, audio_b, cap),
    decreases a.len(),
{
    if a.len() == 0 {
        assert(a + b =~= b);
    } else {
        assert((a + b).drop_first() =~= a.drop_first() + b);
        match a[0] {
            ActionView::Job(JobView::Final { utt_id, samples, start, end, share }) => {
                law_utterances_stay_in_order(
                    a.drop_first(),
                    b,
                    end,
                    mid,
                    to,
                    audio_a,
                    audio_b,
                    cap,
                );
            },
            _ => {
                law_utterances_stay_in_order(
                    a.drop_first(),
                    b,
                    from,
                    mid,
                    to,
                    audio_a,
                    audio_b,
                    cap,
                );
            },
        }
    }
}

proof fn lemma_no_utterance(a: Seq<ActionView>, at: int, audio: int, cap: int)
    requires
        forall|i: int| 0 <= i < a.len() ==> !(#[trigger] a[i] matches ActionView::Job(j) && j is Final),
    ensures
        utterances_in_order(a, at, at, audio, cap),
    decreases a.len(),
{
    if a.len() > 0 {
        assert(!(a[0] matches ActionView::Job(j) && j is Final));
        assert forall|i: int| 0 <= i < a.drop_first().len() implies !(#[trigger] a.drop_first()[i]
            matches ActionView::Job(j) && j is Final) by {
            assert(a.drop_first()[i] == a[i + 1]);
        }
        lemma_no_utterance(a.drop_first(), at, audio, cap);
    }
}

proof fn lemma_finalized(v: SegmenterView, end: int, cap: int)
    requires
        aligned(v),
        sane(v),
        v.in_speech,
        ms_of(v.utt.len() as int) <= cap,
    ensures
        aligned(v.finalized(end)),
        utterances_in_order(
            v.finalized_actions(end),
            v.last_final_end,
            v.finalized(end).last_final_end,
            v.audio,
            cap,
        ),
{
    let acts = v.finalized_actions(end);
    let abort = v.abort_actions();
    lemma_no_utterance(abort, v.last_final_end, v.audio, cap);
    if v.worth_recognising() {
        let e = v.settled_end(end);
        let rest = acts.skip(abort.len() as int);
        assert(acts =~= abort + rest);
        assert(rest.len() == 2);
        assert(rest.drop_first() =~= seq![ActionView::Ended(e)]);
        lemma_no_utterance(rest.drop_first(), e, v.audio, cap);
        assert(utterances_in_order(rest, v.last_final_end, e, v.audio, cap));
        law_utterances_stay_in_order(
            abort,
            rest,
            v.last_final_end,
            v.last_final_end,
            e,
            v.audio,
            v.audio,
            cap,
        );
    } else {
        assert(acts =~= abort);
    }
}

proof fn lemma_split(v: SegmenterView, at: int, cap: int)
    requires
        aligned(v),
        sane(v),
        v.in_speech,
        0 <= at <= v.utt.len(),
        at % 16 == 0,
        v.utt.len() - at <= 48000,
        ms_of(v.utt.len() as int) <= cap,
    ensures
        aligned(v.split(at)),
        within_limit(v.split(at)),
        utterances_in_order(
            v.split_actions(at),
            v.last_final_end,
            v.split(at).last_final_end,
            v.audio,
            cap,
        ),
{
    let acts = v.split_actions(at);
    let abort = v.abort_actions();
    let split_ms = v.utt_start + ms_of(at);
    let tail = if v.utt.len() > at {
        seq![ActionView::Started(split_ms)]
    } else {
        Seq::empty()
    };
    lemma_no_utterance(abort, v.last_final_end, v.audio, cap);
    if ms_of(at) >= v.cfg.min_speech_ms {
        let rest = acts.skip(abort.len() as int);
        assert(acts =~= abort + rest);
        assert(rest.drop_first() =~= seq![ActionView::Ended(split_ms)] + tail);
        lemma_no_utterance(rest.drop_first(), split_ms, v.audio, cap);
        assert(rest[0] == ActionView::Job(
            JobView::Final {
                utt_id: v.utt_id,
                samples: v.utt.take(at),
                start: v.utt_start,
                end: split_ms,
                share: v.share,
            },
        ));
        assert(utterances_in_order(rest, v.last_final_end, split_ms, v.audio, cap));
        law_utterances_stay_in_order(
            abort,
            rest,
            v.last_final_end,
            v.last_final_end,
            split_ms,
            v.audio,
            v.audio,
            cap,
        );
    } else {
        assert(acts =~= abort + tail);
        lemma_no_utterance(acts, v.last_final_end, v.audio, cap);
    }
}

proof fn lemma_started(v: SegmenterView, start: int)
    requires
        aligned(v),
        sane(v),
        !v.in_speech,
        0 <= start <= v.audio,
        start >= v.audio - 1900,
    ensures
        aligned(v.started(start)),
        within_limit(v.started(start)),
{
    let s = v.settled_start(start);
    let len = v.history.len() as int;
    assert(v.history_max() == 16 * (v.cfg.max_utterance_ms + 3000));
    assert(len % 16 == 0);
    let history_start = v.audio - ms_of(len);
    assert(s >= history_start);
    assert(v.sample_index(s) == 16 * (s - history_start));
}

pub proof fn lemma_joined_start(spans: Seq<SpeechSpan>, i: int, gap: int, lo: int, hi: int)
    requires
        spans_within(spans, lo, hi),
        0 <= i < spans.len(),
    ensures
        lo <= joined_start(spans, i, gap) <= hi,
    decreases i,
{
    if i > 0 && spans[i].start_ms - spans[i - 1].end_ms <= gap {
        lemma_joined_start(spans, i - 1, gap, lo, hi);
    }
}

proof fn lemma_reacted(v: SegmenterView, spans: Seq<SpeechSpan>, cap: int)
    requires
        aligned(v),
        sane(v),
        within_limit(v),
        v.cfg.max_utterance_ms <= cap,
        !v.in_speech ==> spans_within(spans, v.window_start(), v.audio),
    ensures
        aligned(v.reacted(spans)),
        within_limit(v.reacted(spans)),
        utterances_in_order(
            v.reacted_actions(spans),
            v.last_final_end,
            v.reacted(spans).last_final_end,
            v.audio,
            cap,
        ),
{
    let w = v.noted(spans);
    assert(aligned(w));
    if !v.in_speech {
        if v.speech_now(spans) {
            lemma_joined_start(
                spans,
                spans.len() - 1,
                v.cfg.min_silence_ms + 250,
                v.window_start(),
                v.audio,
            );
            lemma_started(w, v.onset(spans));
        }
        lemma_no_utterance(v.reacted_actions(spans), v.last_final_end, v.audio, cap);
    } else if spans.len() >= 2 {
        lemma_finalized(
            w,
            crate::pipeline::segmenter::larger(
                spans[spans.len() - 2].end_ms as int,
                v.utt_start + 1,
            ),
            cap,
        );
    } else if w.gone_silent(spans) {
        lemma_finalized(
            w,
            crate::pipeline::segmenter::larger(w.last_speech_end, v.utt_start + 1),
            cap,
        );
    } else {
        lemma_no_utterance(v.reacted_actions(spans), v.last_final_end, v.audio, cap);
    }
}

/// Outside an utterance the window for detection ends now.
pub proof fn lemma_idle_window(v: SegmenterView)
    requires
        aligned(v),
        !v.in_speech,
    ensures
        v.window_start() + framed_ms(v.window()) <= v.audio,
{
    let len = v.history.len() as int;
    assert(v.history_max() == 16 * (v.cfg.max_utterance_ms + 3000));
    let history_start = v.audio - ms_of(len);
    assert(len % 16 == 0);
    assert(v.window_start() >= history_start);
    assert(v.sample_index(v.window_start()) == 16 * (v.window_start() - history_start));
    assert(v.window().len() == 16 * (v.audio - v.window_start()));
}

pub proof fn lemma_detected_within<L, P, S, E>(
    acoustics: &Acoustics<L, P, S, E>,
    window: Seq<Single>,
    threshold_db: Single,
    min_speech_ms: u32,
    min_silence_ms: u32,
    speech_pad_ms: u32,
    before: EnergyState,
    in_utterance: bool,
    after: EnergyState,
    spans: Seq<SpeechSpan>,
) where
    L: Fn(&[Single]) -> Single,
    P: Fn(&[Single]) -> Single,
    S: Fn(Single, Single) -> Single,
    E: Fn(&[Single]) -> Double,

    requires
        acoustics.detects(
            window,
            threshold_db,
            min_speech_ms,
            min_silence_ms,
            speech_pad_ms,
            before,
            in_utterance,
            after,
            spans,
        ),
        window.len() <= MAX_SAMPLES,
    ensures
        spans_within(spans, 0, framed_ms(window)),
{
    if window.len() >= 320 {
        let (levels, threshold) = choose|levels: Seq<Single>, threshold: Single|
            {
                &&& #[trigger] acoustics.levels_are(window, levels)
                &&& acoustics.floor_moves(before, in_utterance, levels, after)
                &&& #[trigger] acoustics.sum_is(after.floor(), threshold_db, threshold)
                &&& spans == crate::audio::vad::padded_spans(
                    speech_frames(levels, threshold, min_speech_ms as int, min_silence_ms as int),
                    frames_in(speech_pad_ms as int),
                )
            };
        law_padded_spans_stay_in_window(
            speech_frames(levels, threshold, min_speech_ms as int, min_silence_ms as int),
            frames_in(speech_pad_ms as int),
        );
    }
}

pub proof fn lemma_listened<L, P, S, E>(
    v: SegmenterView,
    acoustics: &Acoustics<L, P, S, E>,
    after: SegmenterView,
    actions: Seq<ActionView>,
    cap: int,
) where
    L: Fn(&[Single]) -> Single,
    P: Fn(&[Single]) -> Single,
    S: Fn(Single, Single) -> Single,
    E: Fn(&[Single]) -> Double,

    requires
        aligned(v),
        sane(v),
        within_limit(v),
        v.cfg.max_utterance_ms <= cap,
        listened(v, acoustics, after, actions),
    ensures
        aligned(after),
        within_limit(after),
        after.audio == v.audio,
        after.cfg == v.cfg,
        utterances_in_order(actions, v.last_final_end, after.last_final_end, v.audio, cap),
{
    if v.window().len() >= 8000 {
        let (state, spans) = choose|state: EnergyState, spans: Seq<SpeechSpan>|
            {
                let heard = shifted(overlaps_clamped(spans), v.window_start());
                let w = SegmenterView { vad: state, ..v };
                &&& #[trigger] acoustics.detects(
                    v.window(),
                    v.cfg.energy_threshold_db,
                    v.cfg.min_speech_ms,
                    v.cfg.min_silence_ms,
                    v.cfg.speech_pad_ms,
                    v.vad,
                    v.in_speech,
                    state,
                    spans,
                )
                &&& after == w.reacted(heard)
                &&& actions == w.reacted_actions(heard)
            };
        let heard = shifted(overlaps_clamped(spans), v.window_start());
        let w = SegmenterView { vad: state, ..v };
        if !v.in_speech {
            lemma_detected_within(
                acoustics,
                v.window(),
                v.cfg.energy_threshold_db,
                v.cfg.min_speech_ms,
                v.cfg.min_silence_ms,
                v.cfg.speech_pad_ms,
                v.vad,
                v.in_speech,
                state,
                spans,
            );
            law_clamped_spans_are_apart(spans, 0, framed_ms(v.window()));
            lemma_idle_window(v);
            let apart = overlaps_clamped(spans);
            assert forall|i: int| 0 <= i < heard.len() implies v.window_start() <= (
            #[trigger] heard[i]).start_ms <= heard[i].end_ms <= v.audio by {
                assert(0 <= apart[i].start_ms <= apart[i].end_ms <= framed_ms(v.window()));
            }
        }
        lemma_reacted(w, heard, cap);
    }
}

pub proof fn lemma_quietest(energies: Seq<Double>)
    ensures
        0 <= quietest(energies).0,
        quietest(energies).0 < energies.len() || quietest(energies).0 == 0,
    decreases energies.len(),
{
    if energies.len() > 0 {
        lemma_quietest(energies.drop_last());
    }
}

/// Where an utterance is cut, no other candidate was quieter.
pub proof fn law_cut_is_at_the_quietest_place(energies: Seq<Double>, k: int)
    requires
        0 <= k < energies.len(),
    ensures
        !energies[k].less(quietest(energies).1),
    decreases energies.len(),
{
    if k < energies.len() - 1 {
        law_cut_is_at_the_quietest_place(energies.drop_last(), k);
        assert(energies.drop_last()[k] == energies[k]);
    }
}

pub proof fn lemma_length_checked<L, P, S, E>(
    v: SegmenterView,
    acoustics: &Acoustics<L, P, S, E>,
    after: SegmenterView,
    actions: Seq<ActionView>,
    cap: int,
) where
    L: Fn(&[Single]) -> Single,
    P: Fn(&[Single]) -> Single,
    S: Fn(Single, Single) -> Single,
    E: Fn(&[Single]) -> Double,

    requires
        aligned(v),
        sane(v),
        v.in_speech ==> ms_of(v.utt.len() as int) <= cap,
        length_checked(v, acoustics, after, actions),
    ensures
        aligned(after),
        within_limit(after),
        after.audio == v.audio,
        after.cfg == v.cfg,
        utterances_in_order(actions, v.last_final_end, after.last_final_end, v.audio, cap),
{
    if v.too_long() {
        if v.search_len() < 8000 {
            lemma_finalized(v, v.audio, cap);
        } else {
            let energies = choose|energies: Seq<Double>|
                {
                    &&& #[trigger] cut_energies(v, acoustics, energies)
                    &&& after == v.split(v.candidate(quietest(energies).0))
                    &&& actions == v.split_actions(v.candidate(quietest(energies).0))
                };
            lemma_quietest(energies);
            lemma_split(v, v.candidate(quietest(energies).0), cap);
        }
    }
}

/// A step with a frame of whole milliseconds keeps buffers and time line
/// together, keeps utterances within their limit, and hands utterances on in
/// order: none overlaps an earlier one or reaches beyond the audio.
pub proof fn law_step_keeps_the_timeline<L, P, S, E>(
    v: SegmenterView,
    samples: Seq<Single>,
    levels: Seq<(String, SourceKind, FrameEnergy)>,
    acoustics: &Acoustics<L, P, S, E>,
    after: SegmenterView,
    actions: Seq<ActionView>,
) where
    L: Fn(&[Single]) -> Single,
    P: Fn(&[Single]) -> Single,
    S: Fn(Single, Single) -> Single,
    E: Fn(&[Single]) -> Double,

    requires
        aligned(v),
        sane(v),
        within_limit(v),
        samples.len() % 16 == 0,
        v.fed + samples.len() <= MAX_SAMPLES,
        stepped(v, samples, levels, acoustics, after, actions),
    ensures
        aligned(after),
        sane(after),
        within_limit(after),
        after.total_speech <= after.audio,
        after.audio == v.audio + ms_of(samples.len() as int),
        utterances_in_order(
            actions,
            v.last_final_end,
            after.last_final_end,
            after.audio,
            v.cfg.max_utterance_ms + ms_of(samples.len() as int),
        ),
{
    let cap = v.cfg.max_utterance_ms + ms_of(samples.len() as int);
    if samples.len() > 0 {
        let (v1, a1, v2, a2) = choose|
            v1: SegmenterView,
            a1: Seq<ActionView>,
            v2: SegmenterView,
            a2: Seq<ActionView>,
        |
            {
                &&& #[trigger] length_checked(v.accepted(samples, levels), acoustics, v1, a1)
                &&& #[trigger] listened_if_due(v1, acoustics, v2, a2)
                &&& after == v2.previewed()
                &&& actions == a1 + a2 + v2.previewed_actions()
            };
        let v0 = v.accepted(samples, levels);
        assert(v.history_max() == 16 * (v.cfg.max_utterance_ms + 3000));
        assert(samples.len() == 16 * ms_of(samples.len() as int));
        assert(aligned(v0));
        lemma_length_checked(v0, acoustics, v1, a1, cap);
        if v1.audio - v1.last_vad >= 500 {
            lemma_listened(
                SegmenterView { last_vad: v1.audio, ..v1 },
                acoustics,
                v2,
                a2,
                cap,
            );
        } else {
            lemma_no_utterance(a2, v1.last_final_end, v1.audio, cap);
        }
        law_utterances_stay_in_order(
            a1,
            a2,
            v0.last_final_end,
            v1.last_final_end,
            v2.last_final_end,
            v0.audio,
            v0.audio,
            cap,
        );
        lemma_no_utterance(v2.previewed_actions(), v2.last_final_end, v2.audio, cap);
        law_utterances_stay_in_order(
            a1 + a2,
            v2.previewed_actions(),
            v0.last_final_end,
            v2.last_final_end,
            v2.last_final_end,
            v0.audio,
            v0.audio,
            cap,
        );
    }
}

/// The end of a session keeps the time line too, and leaves no utterance open.
pub proof fn law_flush_keeps_the_timeline<L, P, S, E>(
    v: SegmenterView,
    acoustics: &Acoustics<L, P, S, E>,
    after: SegmenterView,
    actions: Seq<ActionView>,
) where
    L: Fn(&[Single]) -> Single,
    P: Fn(&[Single]) -> Single,
    S: Fn(Single, Single) -> Single,
    E: Fn(&[Single]) -> Double,

    requires
        aligned(v),
        sane(v),
        within_limit(v),
        flushed(v, acoustics, after, actions),
    ensures
        aligned(after),
        !after.in_speech,
        after.total_speech <= after.audio,
        after.audio == v.audio,
        utterances_in_order(
            actions,
            v.last_final_end,
            after.last_final_end,
            after.audio,
            v.cfg.max_utterance_ms as int,
        ),
{
    let cap = v.cfg.max_utterance_ms as int;
    if v.in_speech {
        let (v1, a1) = choose|v1: SegmenterView, a1: Seq<ActionView>|
            {
                let end = smaller(
                    crate::pipeline::segmenter::larger(v1.last_speech_end, v1.utt_start + 1),
                    v1.audio,
                );
                &&& #[trigger] listened(v, acoustics, v1, a1)
                &&& if v1.in_speech {
                    after == v1.finalized(end) && actions == a1 + v1.finalized_actions(end)
                } else {
                    after == v1 && actions == a1
                }
            };
        lemma_listened(v, acoustics, v1, a1, cap);
        if v1.in_speech {
            let end = smaller(
                crate::pipeline::segmenter::larger(v1.last_speech_end, v1.utt_start + 1),
                v1.audio,
            );
            lemma_finalized(v1, end, cap);
            law_utterances_stay_in_order(
                a1,
                v1.finalized_actions(end),
                v.last_final_end,
                v1.last_final_end,
                after.last_final_end,
                v.audio,
                v.audio,
                cap,
            );
        }
    }
}

/// A proposed end that is much too early is not taken: an utterance handed on
/// lasts at least six tenths of its audio.
pub proof fn law_degenerate_end_is_replaced(v: SegmenterView, end: int)
    requires
        aligned(v),
        v.in_speech,
    ensures
        v.settled_end(end) - v.utt_start >= ms_of(v.utt.len() as int) * 6 / 10,
        v.settled_end(end) <= v.audio,
{
}

/// A fresh segmenter satisfies what the laws start from, and so do the settings
/// to begin with and all that are brought into range.
pub proof fn law_fresh_segmenter_is_aligned(cfg: VadSettings, live_preview: bool)
    ensures
        aligned(fresh(cfg, live_preview)),
        within_limit(fresh(cfg, live_preview)),
        sane(fresh(default_vad(), live_preview)),
        sane(fresh(cfg.in_range(), live_preview)),
{
    let v = fresh(cfg, live_preview);
    assert(v.history_max() == 16 * (v.cfg.max_utterance_ms + 3000));
}

// ---------------------------------------------------------------------------
// Whole sessions
// ---------------------------------------------------------------------------

/// A frame as it comes in.
pub ghost struct FrameView {
    pub samples: Seq<Single>,
    pub levels: Seq<(String, SourceKind, FrameEnergy)>,
}

/// A session: the frames, the segmenter before and after each of them, and what
/// it asked for at each.
pub open spec fn runs<L, P, S, E>(
    acoustics: &Acoustics<L, P, S, E>,
    states: Seq<SegmenterView>,
    frames: Seq<FrameView>,
    actions: Seq<Seq<ActionView>>,
) -> bool where
    L: Fn(&[Single]) -> Single,
    P: Fn(&[Single]) -> Single,
    S: Fn(Single, Single) -> Single,
    E: Fn(&[Single]) -> Double,
 {
    &&& states.len() == frames.len() + 1
    &&& actions.len() == frames.len()
    &&& forall|i: int|
        0 <= i < frames.len() ==> stepped(
            states[i],
            (#[trigger] frames[i]).samples,
            frames[i].levels,
            acoustics,
            states[i + 1],
            actions[i],
        )
}

/// The samples of all frames.
pub open spec fn samples_of(frames: Seq<FrameView>) -> int
    decreases frames.len(),
{
    if frames.len() == 0 {
        0
    } else {
        samples_of(frames.drop_last()) + frames.last().samples.len()
    }
}

/// All that was asked for, in order.
pub open spec fn all_actions(actions: Seq<Seq<ActionView>>) -> Seq<ActionView>
    decreases actions.len(),
{
    if actions.len() == 0 {
        Seq::empty()
    } else {
        all_actions(actions.drop_last()) + actions.last()
    }
}

/// Frames of whole milliseconds, none longer than `longest` milliseconds.
pub open spec fn whole_frames(frames: Seq<FrameView>, longest: int) -> bool {
    forall|i: int|
        0 <= i < frames.len() ==> (#[trigger] frames[i]).samples.len() % 16 == 0 && ms_of(
            frames[i].samples.len() as int,
        ) <= longest
}

/// No preview is asked for.
pub open spec fn no_previews(actions: Seq<ActionView>) -> bool {
    forall|i: int|
        0 <= i < actions.len() ==> !(#[trigger] actions[i] matches ActionView::Job(
            JobView::Partial { .. },
        ))
}

proof fn lemma_longer_cap(actions: Seq<ActionView>, from: int, to: int, audio: int, cap: int, more: int)
    requires
        utterances_in_order(actions, from, to, audio, cap),
        cap <= more,
    ensures
        utterances_in_order(actions, from, to, audio, more),
    decreases actions.len(),
{
    if actions.len() > 0 {
        match actions[0] {
            ActionView::Job(JobView::Final { utt_id, samples, start, end, share }) => {
                lemma_longer_cap(actions.drop_first(), end, to, audio, cap, more);
            },
            _ => {
                lemma_longer_cap(actions.drop_first(), from, to, audio, cap, more);
            },
        }
    }
}

/// A frame without samples asks for nothing and changes nothing.
pub proof fn law_empty_frame_changes_nothing<L, P, S, E>(
    v: SegmenterView,
    levels: Seq<(String, SourceKind, FrameEnergy)>,
    acoustics: &Acoustics<L, P, S, E>,
    after: SegmenterView,
    actions: Seq<ActionView>,
) where
    L: Fn(&[Single]) -> Single,
    P: Fn(&[Single]) -> Single,
    S: Fn(Single, Single) -> Single,
    E: Fn(&[Single]) -> Double,

    requires
        stepped(v, Seq::empty(), levels, acoustics, after, actions),
    ensures
        after == v,
        actions.len() == 0,
{
}

/// Same settings.
spec fn same_settings(a: SegmenterView, b: SegmenterView) -> bool {
    a.cfg == b.cfg && a.live_preview == b.live_preview
}

proof fn lemma_ending_asks_no_preview(v: SegmenterView, end: int)
    ensures
        same_settings(v.finalized(end), v),
        no_previews(v.finalized_actions(end)),
{
}

proof fn lemma_cut_asks_no_preview(v: SegmenterView, at: int)
    ensures
        same_settings(v.split(at), v),
        no_previews(v.split_actions(at)),
{
}

proof fn lemma_reaction_asks_no_preview(v: SegmenterView, spans: Seq<SpeechSpan>)
    ensures
        same_settings(v.reacted(spans), v),
        no_previews(v.reacted_actions(spans)),
{
}

proof fn lemma_length_check_settings<L, P, S, E>(
    v: SegmenterView,
    acoustics: &Acoustics<L, P, S, E>,
    after: SegmenterView,
    actions: Seq<ActionView>,
) where
    L: Fn(&[Single]) -> Single,
    P: Fn(&[Single]) -> Single,
    S: Fn(Single, Single) -> Single,
    E: Fn(&[Single]) -> Double,

    requires
        length_checked(v, acoustics, after, actions),
    ensures
        same_settings(after, v),
        no_previews(actions),
{
    if v.too_long() {
        if v.search_len() < 8000 {
            lemma_ending_asks_no_preview(v, v.audio);
        } else {
            let energies = choose|energies: Seq<Double>|
                {
                    &&& #[trigger] cut_energies(v, acoustics, energies)
                    &&& after == v.split(v.candidate(quietest(energies).0))
                    &&& actions == v.split_actions(v.candidate(quietest(energies).0))
                };
            lemma_cut_asks_no_preview(v, v.candidate(quietest(energies).0));
        }
    }
}

proof fn lemma_listening_settings<L, P, S, E>(
    v: SegmenterView,
    acoustics: &Acoustics<L, P, S, E>,
    after: SegmenterView,
    actions: Seq<ActionView>,
) where
    L: Fn(&[Single]) -> Single,
    P: Fn(&[Single]) -> Single,
    S: Fn(Single, Single) -> Single,
    E: Fn(&[Single]) -> Double,

    requires
        listened(v, acoustics, after, actions),
    ensures
        same_settings(after, v),
        no_previews(actions),
{
    if v.window().len() >= 8000 {
        let (state, spans) = choose|state: EnergyState, spans: Seq<SpeechSpan>|
            {
                let heard = shifted(overlaps_clamped(spans), v.window_start());
                let w = SegmenterView { vad: state, ..v };
                &&& #[trigger] acoustics.detects(
                    v.window(),
                    v.cfg.energy_threshold_db,
                    v.cfg.min_speech_ms,
                    v.cfg.min_silence_ms,
                    v.cfg.speech_pad_ms,
                    v.vad,
                    v.in_speech,
                    state,
                    spans,
                )
                &&& after == w.reacted(heard)
                &&& actions == w.reacted_actions(heard)
            };
        lemma_reaction_asks_no_preview(
            SegmenterView { vad: state, ..v },
            shifted(overlaps_clamped(spans), v.window_start()),
        );
    }
}

proof fn lemma_no_previews_joined(a: Seq<ActionView>, b: Seq<ActionView>)
    requires
        no_previews(a),
        no_previews(b),
    ensures
        no_previews(a + b),
{
}

/// Settings stay as they are, and without the wish for previews a step asks for
/// none.
pub proof fn law_step_respects_the_settings<L, P, S, E>(
    v: SegmenterView,
    samples: Seq<Single>,
    levels: Seq<(String, SourceKind, FrameEnergy)>,
    acoustics: &Acoustics<L, P, S, E>,
    after: SegmenterView,
    actions: Seq<ActionView>,
) where
    L: Fn(&[Single]) -> Single,
    P: Fn(&[Single]) -> Single,
    S: Fn(Single, Single) -> Single,
    E: Fn(&[Single]) -> Double,

    requires
        stepped(v, samples, levels, acoustics, after, actions),
    ensures
        after.cfg == v.cfg,
        after.live_preview == v.live_preview,
        !v.live_preview ==> no_previews(actions),
{
    if samples.len() > 0 {
        let v0 = v.accepted(samples, levels);
        let (v1, a1, v2, a2) = choose|
            v1: SegmenterView,
            a1: Seq<ActionView>,
            v2: SegmenterView,
            a2: Seq<ActionView>,
        |
            {
                &&& #[trigger] length_checked(v0, acoustics, v1, a1)
                &&& #[trigger] listened_if_due(v1, acoustics, v2, a2)
                &&& after == v2.previewed()
                &&& actions == a1 + a2 + v2.previewed_actions()
            };
        lemma_length_check_settings(v0, acoustics, v1, a1);
        if v1.audio - v1.last_vad >= 500 {
            lemma_listening_settings(
                SegmenterView { last_vad: v1.audio, ..v1 },
                acoustics,
                v2,
                a2,
            );
        }
        lemma_no_previews_joined(a1, a2);
        if !v.live_preview {
            lemma_no_previews_joined(a1 + a2, v2.previewed_actions());
        }
    }
}

/// What holds of a segmenter with these settings that has taken in `total` samples
/// and asked for `asked`.
pub open spec fn on_track(
    cfg: VadSettings,
    live_preview: bool,
    longest: int,
    v: SegmenterView,
    total: int,
    asked: Seq<ActionView>,
) -> bool {
    &&& aligned(v)
    &&& within_limit(v)
    &&& v.cfg == cfg
    &&& v.live_preview == live_preview
    &&& v.audio == ms_of(total)
    &&& v.total_speech <= v.audio
    &&& utterances_in_order(
        asked,
        0,
        v.last_final_end,
        v.audio,
        cfg.max_utterance_ms + longest,
    )
    &&& !live_preview ==> no_previews(asked)
}

proof fn lemma_on_track<L, P, S, E>(
    cfg: VadSettings,
    live_preview: bool,
    longest: int,
    acoustics: &Acoustics<L, P, S, E>,
    v: SegmenterView,
    total: int,
    asked: Seq<ActionView>,
    f: FrameView,
    after: SegmenterView,
    actions: Seq<ActionView>,
) where
    L: Fn(&[Single]) -> Single,
    P: Fn(&[Single]) -> Single,
    S: Fn(Single, Single) -> Single,
    E: Fn(&[Single]) -> Double,

    requires
        sane(fresh(cfg, live_preview)),
        on_track(cfg, live_preview, longest, v, total, asked),
        stepped(v, f.samples, f.levels, acoustics, after, actions),
        0 <= total,
        total % 16 == 0,
        f.samples.len() % 16 == 0,
        ms_of(f.samples.len() as int) <= longest,
        total + f.samples.len() <= MAX_SAMPLES,
    ensures
        on_track(
            cfg,
            live_preview,
            longest,
            after,
            total + f.samples.len(),
            asked + actions,
        ),
{
    let cap = cfg.max_utterance_ms + longest;
    law_step_keeps_the_timeline(v, f.samples, f.levels, acoustics, after, actions);
    law_step_respects_the_settings(v, f.samples, f.levels, acoustics, after, actions);
    lemma_longer_cap(
        actions,
        v.last_final_end,
        after.last_final_end,
        after.audio,
        cfg.max_utterance_ms + ms_of(f.samples.len() as int),
        cap,
    );
    law_utterances_stay_in_order(
        asked,
        actions,
        0,
        v.last_final_end,
        after.last_final_end,
        v.audio,
        after.audio,
        cap,
    );
    if !live_preview {
        lemma_no_previews_joined(asked, actions);
    }
}

pub proof fn lemma_earlier_run<L, P, S, E>(
    acoustics: &Acoustics<L, P, S, E>,
    states: Seq<SegmenterView>,
    frames: Seq<FrameView>,
    actions: Seq<Seq<ActionView>>,
    longest: int,
) where
    L: Fn(&[Single]) -> Single,
    P: Fn(&[Single]) -> Single,
    S: Fn(Single, Single) -> Single,
    E: Fn(&[Single]) -> Double,

    requires
        runs(acoustics, states, frames, actions),
        whole_frames(frames, longest),
        frames.len() > 0,
    ensures
        runs(acoustics, states.drop_last(), frames.drop_last(), actions.drop_last()),
        whole_frames(frames.drop_last(), longest),
{
    let before = states.drop_last();
    let earlier = frames.drop_last();
    let asked = actions.drop_last();
    assert forall|i: int| 0 <= i < earlier.len() implies stepped(
        before[i],
        (#[trigger] earlier[i]).samples,
        earlier[i].levels,
        acoustics,
        before[i + 1],
        asked[i],
    ) by {
        assert(earlier[i] == frames[i]);
    }
    assert forall|i: int| 0 <= i < earlier.len() implies (#[trigger] earlier[i]).samples.len() % 16
        == 0 && ms_of(earlier[i].samples.len() as int) <= longest by {
        assert(earlier[i] == frames[i]);
    }
}

/// A whole session, from a fresh segmenter on, with frames of whole milliseconds:
/// utterances follow one another without overlapping, each is longer than nothing,
/// ends within the audio and lasts no longer than allowed, but for the frame in
/// which it became too long; the speech counted never exceeds the audio; and
/// without the wish for previews none is ever asked for.
pub proof fn law_session_keeps_the_timeline<L, P, S, E>(
    cfg: VadSettings,
    live_preview: bool,
    acoustics: &Acoustics<L, P, S, E>,
    states: Seq<SegmenterView>,
    frames: Seq<FrameView>,
    actions: Seq<Seq<ActionView>>,
    longest: int,
) where
    L: Fn(&[Single]) -> Single,
    P: Fn(&[Single]) -> Single,
    S: Fn(Single, Single) -> Single,
    E: Fn(&[Single]) -> Double,

    requires
        sane(fresh(cfg, live_preview)),
        runs(acoustics, states, frames, actions),
        states[0] == (SegmenterView {
            single_source: states[0].single_source,
            ..fresh(cfg, live_preview)
        }),
        whole_frames(frames, longest),
        samples_of(frames) <= MAX_SAMPLES,
    ensures
        on_track(
            cfg,
            live_preview,
            longest,
            states.last(),
            samples_of(frames),
            all_actions(actions),
        ),
    decreases frames.len(),
{
    if frames.len() == 0 {
        assert(states.last() == states[0]);
        assert(states[0].history_max() == 16 * (cfg.max_utterance_ms + 3000));
    } else {
        let n = frames.len() - 1;
        let earlier = frames.drop_last();
        lemma_earlier_run(acoustics, states, frames, actions, longest);
        lemma_whole_samples(earlier, longest);
        law_session_keeps_the_timeline(
            cfg,
            live_preview,
            acoustics,
            states.drop_last(),
            earlier,
            actions.drop_last(),
            longest,
        );
        assert(states.drop_last().last() == states[n]);
        assert(frames[n].samples.len() % 16 == 0);
        lemma_on_track(
            cfg,
            live_preview,
            longest,
            acoustics,
            states[n],
            samples_of(earlier),
            all_actions(actions.drop_last()),
            frames[n],
            states[n + 1],
            actions[n],
        );
    }
}

pub proof fn lemma_whole_samples(frames: Seq<FrameView>, longest: int)
    requires
        whole_frames(frames, longest),
    ensures
        samples_of(frames) >= 0,
        samples_of(frames) % 16 == 0,
    decreases frames.len(),
{
    if frames.len() > 0 {
        let earlier = frames.drop_last();
        assert forall|i: int| 0 <= i < earlier.len() implies (#[trigger] earlier[i]).samples.len()
            % 16 == 0 && ms_of(earlier[i].samples.len() as int) <= longest by {
            assert(earlier[i] == frames[i]);
        }
        lemma_whole_samples(earlier, longest);
        assert(frames[frames.len() - 1].samples.len() % 16 == 0);
    }
}

} // verus!
