//! What utterances are made of.
//!
//! Whatever is cut out of a session is what was recorded there: the audio of an
//! utterance is a stretch of the audio taken in, and the energies by which its
//! speaker is told are those of all frames from where the utterance begins.

use vstd::prelude::*;
use crate::audio::capture::SourceKind;
use crate::audio::vad::Acoustics;
use crate::audio::vad::EnergyState;
use crate::audio::vad::FrameEnergy;
use crate::audio::vad::SpeechSpan;
use crate::audio::vad::framed_ms;
use crate::audio::vad::law_clamped_spans_are_apart;
use crate::audio::vad::overlaps_clamped;
use crate::num::Double;
use crate::num::Single;
use crate::pipeline::segmenter::ActionView;
use crate::pipeline::segmenter::JobView;
use crate::pipeline::segmenter::MAX_SAMPLES;
use crate::pipeline::segmenter::Segmenter;
use crate::pipeline::segmenter::SegmenterAction;
use crate::pipeline::segmenter::SegmenterView;
use crate::pipeline::segmenter::action_views;
use crate::pipeline::segmenter::cut_energies;
use crate::pipeline::segmenter::dated;
use crate::pipeline::segmenter::energies_since;
use crate::pipeline::segmenter::flushed;
use crate::pipeline::segmenter::fresh;
use crate::pipeline::segmenter::joined_start;
use crate::pipeline::segmenter::larger;
use crate::pipeline::segmenter::length_checked;
use crate::pipeline::segmenter::level_energies;
use crate::pipeline::segmenter::listened;
use crate::pipeline::segmenter::listened_if_due;
use crate::pipeline::segmenter::ms_of;
use crate::pipeline::segmenter::quietest;
use crate::pipeline::segmenter::recent_energies;
use crate::pipeline::segmenter::shifted;
use crate::pipeline::segmenter::smaller;
use crate::pipeline::segmenter::stepped;
use crate::pipeline::timeline::FrameView;
use crate::pipeline::timeline::aligned;
use crate::pipeline::timeline::lemma_detected_within;
use crate::pipeline::timeline::lemma_earlier_run;
use crate::pipeline::timeline::lemma_idle_window;
use crate::pipeline::timeline::lemma_joined_start;
use crate::pipeline::timeline::lemma_length_checked;
use crate::pipeline::timeline::lemma_listened;
use crate::pipeline::timeline::lemma_quietest;
use crate::pipeline::timeline::lemma_whole_samples;
use crate::pipeline::timeline::runs;
use crate::pipeline::timeline::samples_of;
use crate::pipeline::timeline::sane;
use crate::pipeline::timeline::whole_frames;
use crate::pipeline::timeline::within_limit;
use crate::settings::VadSettings;

verus! {

// ---------------------------------------------------------------------------
// Single steps
// ---------------------------------------------------------------------------

/// A frame that comes in while somebody speaks goes on with the utterance: its audio
/// and the energies of all its sources follow what was there before, and nothing is
/// lost. Otherwise there is no utterance to go on with. The frame ends the audio that
/// is remembered in any case.
pub proof fn law_frames_extend_the_utterance(
    v: SegmenterView,
    samples: Seq<Single>,
    levels: Seq<(String, SourceKind, FrameEnergy)>,
)
    requires
        samples.len() <= v.history_max(),
    ensures
        ({
            let r = v.accepted(samples, levels);
            let heard = Seq::new(levels.len(), |i: int| (levels[i].1, levels[i].2.rms));
            &&& v.in_speech ==> r.utt == v.utt + samples && r.share == v.share + heard
            &&& !v.in_speech ==> r.utt == v.utt && r.share == v.share
            &&& samples.is_suffix_of(r.history)
            &&& r.history.is_suffix_of(v.history + samples)
            &&& r.in_speech == v.in_speech && r.utt_start == v.utt_start && r.utt_id == v.utt_id
            &&& r.audio == v.audio + samples.len() * 1000 / 16000
            &&& forall|i: int|
                0 <= i < levels.len() && r.audio - v.audio <= 10_000 ==> r.ring.contains(
                    (v.audio, (#[trigger] levels[i]).1, levels[i].2.rms),
                )
        }),
{
    let r = v.accepted(samples, levels);
    let heard = Seq::new(levels.len(), |i: int| (levels[i].1, levels[i].2.rms));
    assert(level_energies(levels) =~= heard);
    let history = v.history + samples;
    assert(samples =~= history.skip(history.len() - samples.len()));
    assert(samples =~= r.history.skip(r.history.len() - samples.len()));
    assert(r.history =~= history.skip(history.len() - r.history.len()));
    let grown = v.ring + dated(heard, v.audio);
    lemma_old_energies(grown, r.audio, v.ring.len() as int);
    if r.audio - v.audio <= 10_000 {
        assert forall|i: int| 0 <= i < levels.len() implies r.ring.contains(
            (v.audio, (#[trigger] levels[i]).1, levels[i].2.rms),
        ) by {
            let at = v.ring.len() + i;
            let k = grown.len() - r.ring.len();
            assert(grown[at] == (v.audio, levels[i].1, levels[i].2.rms));
            if at < k {
                assert(r.audio - grown[at].0 > 10_000);
            }
            assert(r.ring[at - k] == grown[at]);
        }
    }
}

/// What [`recent_energies`] drops: entries from the beginning that are too old.
proof fn lemma_old_energies(ring: Seq<(int, SourceKind, Single)>, now: int, n: int)
    ensures
        recent_energies(ring, now).len() <= ring.len(),
        recent_energies(ring, now) == ring.skip(ring.len() - recent_energies(ring, now).len()),
        forall|i: int|
            0 <= i < ring.len() - recent_energies(ring, now).len() ==> now - (
            #[trigger] ring[i]).0 > 10_000,
    decreases ring.len(),
{
    if ring.len() > 0 && now - ring[0].0 > 10_000 {
        let rest = ring.drop_first();
        lemma_old_energies(rest, now, n - 1);
        let r = recent_energies(ring, now);
        assert(ring.skip(ring.len() - r.len()) =~= rest.skip(rest.len() - r.len()));
        assert forall|i: int| 0 <= i < ring.len() - r.len() implies now - (#[trigger] ring[i]).0
            > 10_000 by {
            if i > 0 {
                assert(ring[i] == rest[i - 1]);
            }
        }
    } else {
        assert(ring.skip(0) =~= ring);
    }
}

/// The utterance that is ended is handed on whole: all its audio from where it began,
/// with the energies of all its frames and under its own number; then its end is told.
/// One that is too short is dropped, and nothing of it is left for the next one.
pub proof fn law_ended_utterance_is_handed_on_whole(v: SegmenterView, end: int)
    ensures
        ({
            let a = v.finalized_actions(end);
            let long = v.utt.len() > 0 && v.utt.len() * 1000 / 16000 >= v.cfg.min_speech_ms;
            let e = v.settled_end(end);
            &&& long ==> a.len() >= 2 && a[a.len() - 2] == ActionView::Job(
                JobView::Final {
                    utt_id: v.utt_id,
                    samples: v.utt,
                    start: v.utt_start,
                    end: e,
                    share: v.share,
                },
            ) && a.last() == ActionView::Ended(e)
            &&& long ==> v.finalized(end).last_final_end == e && v.finalized(end).total_speech
                == v.total_speech + (e - v.utt_start)
            &&& !long ==> v.finalized(end).last_final_end == v.last_final_end && v.finalized(
                end,
            ).total_speech == v.total_speech
            &&& forall|i: int|
                0 <= i < a.len() && (#[trigger] a[i] is Job || a[i] is Ended) ==> long && i >= a.len()
                    - 2
            &&& v.preview matches Some(p) ==> a.len() > 0 && a[0] == ActionView::Aborted(p)
            &&& !v.finalized(end).in_speech
            &&& v.finalized(end).utt.len() == 0 && v.finalized(end).share.len() == 0
            &&& v.finalized(end).preview is None
        }),
{
}

/// The end of an utterance is where speech ended, if that lies within the audio and
/// is not much too early.
pub proof fn law_plausible_ends_are_kept(v: SegmenterView, end: int)
    requires
        v.utt_start < end <= v.audio,
        (end - v.utt_start) * 10 >= ms_of(v.utt.len() as int) * 6,
    ensures
        v.settled_end(end) == end,
{
}

/// Speech that reaches up to now begins an utterance: it begins where the connected
/// speech does, and four tenths of a second earlier, but not before the end of the
/// last utterance; it has a number of its own, the audio from there on, and the
/// energies of all frames that are remembered from there on.
pub proof fn law_speech_begins_an_utterance(v: SegmenterView, spans: Seq<SpeechSpan>)
    requires
        !v.in_speech,
        spans.len() > 0,
        spans.last().end_ms >= v.audio - 450,
        0 <= v.last_final_end,
    ensures
        ({
            let r = v.reacted(spans);
            let from = joined_start(spans, spans.len() - 1, v.cfg.min_silence_ms + 250) - 400;
            &&& r.in_speech
            &&& r.utt_id == v.utt_id + 1
            &&& r.utt_start >= from && r.utt_start >= v.last_final_end
            &&& r.utt_start == from || r.utt_start == v.last_final_end
            &&& r.utt == v.history.skip(v.sample_index(r.utt_start))
            &&& r.share == heard_since(v.ring, r.utt_start)
            &&& v.reacted_actions(spans) == seq![ActionView::Started(r.utt_start)]
        }),
{
    lemma_energies_since(v.ring, v.reacted(spans).utt_start);
}

/// Without speech up to now no utterance begins.
pub proof fn law_silence_begins_nothing(v: SegmenterView, spans: Seq<SpeechSpan>)
    requires
        !v.in_speech,
        spans.len() == 0 || spans.last().end_ms < v.audio - 450,
    ensures
        !v.reacted(spans).in_speech,
        v.reacted_actions(spans).len() == 0,
{
}

/// An utterance goes on through pauses that are shorter than the silence asked for,
/// and while speech reaches up to now.
pub proof fn law_short_pauses_do_not_end_an_utterance(v: SegmenterView, spans: Seq<SpeechSpan>)
    requires
        v.in_speech,
        spans.len() < 2,
        v.audio - v.last_seen < v.cfg.min_silence_ms || (spans.len() == 1 && spans[0].end_ms
            >= v.audio - 450),
    ensures
        ({
            let r = v.reacted(spans);
            &&& r.in_speech && r.utt == v.utt && r.share == v.share
            &&& r.utt_start == v.utt_start && r.utt_id == v.utt_id
            &&& v.reacted_actions(spans).len() == 0
        }),
{
}

/// Silence that lasts as long as asked for ends an utterance where speech was last
/// heard; so does new speech after it, where the speech before ended.
pub proof fn law_silence_ends_an_utterance(v: SegmenterView, spans: Seq<SpeechSpan>)
    requires
        v.in_speech,
    ensures
        spans.len() == 0 && v.audio - v.last_seen >= v.cfg.min_silence_ms ==> !v.reacted(
            spans,
        ).in_speech && v.reacted_actions(spans) == v.finalized_actions(
            if v.last_speech_end > v.utt_start {
                v.last_speech_end
            } else {
                v.utt_start + 1
            },
        ),
        spans.len() >= 2 ==> !v.reacted(spans).in_speech && v.reacted_actions(spans)
            == v.finalized_actions(
            if spans[spans.len() - 2].end_ms > v.utt_start {
                spans[spans.len() - 2].end_ms as int
            } else {
                v.utt_start + 1
            },
        ),
{
    let w = v.noted(spans);
    assert(w.settled_end(0) == v.settled_end(0));
}

/// An utterance that is cut goes on as the next one without a gap: the audio of both
/// is the audio of the whole, the second begins where the first ends, and both are
/// told apart by their numbers.
pub proof fn law_cutting_loses_no_audio(v: SegmenterView, at: int)
    requires
        v.in_speech,
        0 <= at < v.utt.len(),
        ms_of(at) >= v.cfg.min_speech_ms,
    ensures
        ({
            let a = v.split_actions(at);
            let n = v.abort_actions().len() as int;
            let r = v.split(at);
            &&& a.len() == n + 3
            &&& a[n] == ActionView::Job(
                JobView::Final {
                    utt_id: v.utt_id,
                    samples: v.utt.take(at),
                    start: v.utt_start,
                    end: r.utt_start,
                    share: v.share,
                },
            )
            &&& a[n + 1] == ActionView::Ended(r.utt_start)
            &&& a[n + 2] == ActionView::Started(r.utt_start)
            &&& v.utt.take(at) + r.utt == v.utt
            &&& r.in_speech && r.utt_id == v.utt_id + 1
            &&& r.utt_start == v.utt_start + at * 1000 / 16000
        }),
{
    assert(v.utt.take(at) + v.utt.skip(at) =~= v.utt);
}

/// While somebody speaks, a preview of all that was said so far is asked for every
/// eight tenths of a second, if previews are wanted, each under a number of its own.
pub proof fn law_previews_show_all_that_was_said(v: SegmenterView)
    ensures
        ({
            let due = v.live_preview && v.in_speech && v.audio - v.last_partial >= 800;
            let r = v.previewed();
            &&& due ==> v.previewed_actions() == seq![
                ActionView::Job(
                    JobView::Partial {
                        utt_id: v.utt_id,
                        samples: v.utt,
                        start: v.utt_start,
                        preview: v.previews,
                    },
                ),
            ]
            &&& due ==> r.preview == Some(v.previews) && r.previews == v.previews + 1
                && r.last_partial == v.audio
            &&& !due ==> v.previewed_actions().len() == 0 && r == v
            &&& r.utt == v.utt && r.share == v.share && r.in_speech == v.in_speech
        }),
{
}

// ---------------------------------------------------------------------------
// Whole sessions
// ---------------------------------------------------------------------------

/// All audio of some frames.
pub open spec fn recorded(frames: Seq<FrameView>) -> Seq<Single>
    decreases frames.len(),
{
    if frames.len() == 0 {
        Seq::empty()
    } else {
        recorded(frames.drop_last()) + frames.last().samples
    }
}

/// The energies of a frame's sources, heard at time `at`.
pub open spec fn frame_energies(f: FrameView, at: int) -> Seq<(int, SourceKind, Single)> {
    if f.samples.len() == 0 {
        Seq::empty()
    } else {
        Seq::new(f.levels.len(), |i: int| (at, f.levels[i].1, f.levels[i].2.rms))
    }
}

/// The energies of all sources in all frames, each with the time at which its frame
/// begins.
pub open spec fn all_energies(frames: Seq<FrameView>) -> Seq<(int, SourceKind, Single)>
    decreases frames.len(),
{
    if frames.len() == 0 {
        Seq::empty()
    } else {
        all_energies(frames.drop_last()) + frame_energies(
            frames.last(),
            ms_of(samples_of(frames.drop_last())),
        )
    }
}

/// The sources and energies that were heard from `from` on.
pub open spec fn heard_since(log: Seq<(int, SourceKind, Single)>, from: int) -> Seq<
    (SourceKind, Single),
> {
    log.filter(|e: (int, SourceKind, Single)| e.0 >= from).map_values(
        |e: (int, SourceKind, Single)| (e.1, e.2),
    )
}

/// The segmenter remembers what was heard: its audio is the last of all audio, that of
/// the current utterance is all audio since the utterance began, and the energies of
/// the utterance are all those heard from `from` on.
pub open spec fn remembers(
    v: SegmenterView,
    audio: Seq<Single>,
    log: Seq<(int, SourceKind, Single)>,
    from: int,
) -> bool {
    &&& v.fed == audio.len()
    &&& v.history.is_suffix_of(audio)
    &&& v.ring.len() <= log.len()
    &&& v.ring == log.skip(log.len() - v.ring.len())
    &&& forall|i: int|
        0 <= i < log.len() - v.ring.len() ==> v.audio - (#[trigger] log[i]).0 > 10_000
    &&& forall|i: int| 0 <= i < log.len() ==> (#[trigger] log[i]).0 < v.audio
    &&& v.in_speech ==> {
        &&& v.utt_start <= from <= v.audio
        &&& v.utt == audio.skip(16 * v.utt_start)
        &&& v.share == heard_since(log, from)
    }
}

/// From where on energies count: from the beginning of an utterance, which stays as
/// long as the utterance goes on; after an utterance was cut, from there on.
pub open spec fn goes_on(v: SegmenterView, from: int, after: SegmenterView, then: int) -> bool {
    after.in_speech ==> then == if after.utt_id == v.utt_id {
        from
    } else if v.in_speech {
        after.audio
    } else {
        after.utt_start
    }
}

/// An utterance that is handed on holds the audio from its start on, and the energies
/// of all frames since energies count for it.
pub open spec fn carries(
    v: SegmenterView,
    from: int,
    audio: Seq<Single>,
    log: Seq<(int, SourceKind, Single)>,
    now: int,
    action: ActionView,
) -> bool {
    action matches ActionView::Job(JobView::Final { utt_id, samples, start, end, share }) ==> {
        &&& v.in_speech
        &&& 0 <= start
        &&& 16 * start + samples.len() <= audio.len()
        &&& samples == audio.subrange(16 * start, 16 * start + samples.len())
        &&& utt_id == v.utt_id ==> start == v.utt_start && share == heard_since(log, from)
        &&& utt_id != v.utt_id ==> share == heard_since(log, now)
    }
}

/// Each utterance that is handed on holds what was heard.
pub open spec fn handed_on(
    v: SegmenterView,
    from: int,
    audio: Seq<Single>,
    log: Seq<(int, SourceKind, Single)>,
    now: int,
    actions: Seq<ActionView>,
) -> bool {
    forall|i: int|
        0 <= i < actions.len() ==> carries(v, from, audio, log, now, #[trigger] actions[i])
}

proof fn lemma_energies_since(ring: Seq<(int, SourceKind, Single)>, start: int)
    ensures
        energies_since(ring, start) == heard_since(ring, start),
    decreases ring.len(),
{
    reveal(Seq::filter);
    let p = |e: (int, SourceKind, Single)| e.0 >= start;
    let f = |e: (int, SourceKind, Single)| (e.1, e.2);
    if ring.len() > 0 {
        let head = ring.drop_last();
        lemma_energies_since(head, start);
        if p(ring.last()) {
            assert(ring.filter(p) == head.filter(p).push(ring.last()));
            assert(heard_since(ring, start) =~= heard_since(head, start).push(f(ring.last())));
        }
    } else {
        assert(heard_since(ring, start) =~= Seq::empty());
    }
}

/// Later energies all count.
proof fn lemma_heard_later(
    log: Seq<(int, SourceKind, Single)>,
    more: Seq<(int, SourceKind, Single)>,
    from: int,
)
    requires
        forall|i: int| 0 <= i < more.len() ==> (#[trigger] more[i]).0 >= from,
    ensures
        heard_since(log + more, from) == heard_since(log, from) + more.map_values(
            |e: (int, SourceKind, Single)| (e.1, e.2),
        ),
    decreases more.len(),
{
    reveal(Seq::filter);
    let p = |e: (int, SourceKind, Single)| e.0 >= from;
    let f = |e: (int, SourceKind, Single)| (e.1, e.2);
    if more.len() == 0 {
        assert(log + more =~= log);
        assert(heard_since(log, from) + more.map_values(f) =~= heard_since(log, from));
    } else {
        let head = more.drop_last();
        assert forall|i: int| 0 <= i < head.len() implies (#[trigger] head[i]).0 >= from by {
            assert(head[i] == more[i]);
        }
        lemma_heard_later(log, head, from);
        assert((log + more).drop_last() =~= log + head);
        assert(more[more.len() - 1].0 >= from);
        assert((log + more).filter(p) == (log + head).filter(p).push(more.last()));
        assert(heard_since(log + more, from) =~= heard_since(log + head, from).push(
            f(more.last()),
        ));
        assert(more.map_values(f) =~= head.map_values(f).push(f(more.last())));
    }
}

/// What came before does not count.
proof fn lemma_heard_before(log: Seq<(int, SourceKind, Single)>, k: int, from: int)
    requires
        0 <= k <= log.len(),
        forall|i: int| 0 <= i < k ==> (#[trigger] log[i]).0 < from,
    ensures
        heard_since(log, from) == heard_since(log.skip(k), from),
    decreases log.len(),
{
    reveal(Seq::filter);
    let p = |e: (int, SourceKind, Single)| e.0 >= from;
    let f = |e: (int, SourceKind, Single)| (e.1, e.2);
    if k == log.len() {
        assert(log.skip(k) =~= Seq::empty());
        if log.len() > 0 {
            let head = log.drop_last();
            assert forall|i: int| 0 <= i < k - 1 implies (#[trigger] head[i]).0 < from by {
                assert(head[i] == log[i]);
            }
            lemma_heard_before(head, k - 1, from);
            assert(head.skip(k - 1) =~= Seq::empty());
            assert(log[k - 1].0 < from);
            assert(log.filter(p) == head.filter(p));
        }
    } else {
        let head = log.drop_last();
        assert forall|i: int| 0 <= i < k implies (#[trigger] head[i]).0 < from by {
            assert(head[i] == log[i]);
        }
        lemma_heard_before(head, k, from);
        assert(log.skip(k).drop_last() =~= head.skip(k));
        assert(log.skip(k).last() == log.last());
        if p(log.last()) {
            assert(log.filter(p) == head.filter(p).push(log.last()));
            assert(log.skip(k).filter(p) == head.skip(k).filter(p).push(log.last()));
            assert(heard_since(log, from) =~= heard_since(head, from).push(f(log.last())));
            assert(heard_since(log.skip(k), from) =~= heard_since(head.skip(k), from).push(
                f(log.last()),
            ));
        }
    }
}

proof fn lemma_accepted_remembers(
    v: SegmenterView,
    f: FrameView,
    audio: Seq<Single>,
    log: Seq<(int, SourceKind, Single)>,
    from: int,
)
    requires
        aligned(v),
        remembers(v, audio, log, from),
        f.samples.len() > 0,
        f.samples.len() % 16 == 0,
        v.fed + f.samples.len() <= MAX_SAMPLES,
    ensures
        ({
            let r = v.accepted(f.samples, f.levels);
            &&& aligned(r)
            &&& remembers(r, audio + f.samples, log + frame_energies(f, v.audio), from)
        }),
{
    let r = v.accepted(f.samples, f.levels);
    let all = audio + f.samples;
    let more = frame_energies(f, v.audio);
    let whole = log + more;
    assert(v.history_max() == 16 * (v.cfg.max_utterance_ms + 3000));
    assert(f.samples.len() == 16 * ms_of(f.samples.len() as int));
    assert(more =~= dated(level_energies(f.levels), v.audio));
    let history = v.history + f.samples;
    assert(history =~= all.skip(all.len() - history.len()));
    assert(r.history =~= all.skip(all.len() - r.history.len()));
    let grown = v.ring + more;
    lemma_old_energies(grown, r.audio, 0);
    let k = log.len() - v.ring.len();
    assert(grown =~= whole.skip(k));
    assert(r.ring =~= whole.skip(whole.len() - r.ring.len()));
    assert forall|i: int| 0 <= i < whole.len() - r.ring.len() implies r.audio - (
    #[trigger] whole[i]).0 > 10_000 by {
        if i < k {
            assert(whole[i] == log[i]);
        } else {
            assert(whole[i] == grown[i - k]);
        }
    }
    assert forall|i: int| 0 <= i < whole.len() implies (#[trigger] whole[i]).0 < r.audio by {
        if i < log.len() {
            assert(whole[i] == log[i]);
        }
    }
    if v.in_speech {
        lemma_heard_later(log, more, from);
        assert(level_energies(f.levels) =~= more.map_values(
            |e: (int, SourceKind, Single)| (e.1, e.2),
        ));
        assert(r.utt =~= all.skip(16 * v.utt_start));
    }
}

proof fn lemma_ended_remembers(
    v: SegmenterView,
    audio: Seq<Single>,
    log: Seq<(int, SourceKind, Single)>,
    from: int,
    end: int,
)
    requires
        aligned(v),
        remembers(v, audio, log, from),
        v.in_speech,
    ensures
        remembers(v.finalized(end), audio, log, from),
        handed_on(v, from, audio, log, v.audio, v.finalized_actions(end)),
{
    assert(v.utt =~= audio.subrange(16 * v.utt_start, 16 * v.utt_start + v.utt.len()));
}

proof fn lemma_cut_remembers(
    v: SegmenterView,
    audio: Seq<Single>,
    log: Seq<(int, SourceKind, Single)>,
    from: int,
    at: int,
)
    requires
        aligned(v),
        remembers(v, audio, log, from),
        v.in_speech,
        0 <= at < v.utt.len(),
        at % 16 == 0,
    ensures
        remembers(v.split(at), audio, log, v.audio),
        v.split(at).in_speech,
        handed_on(v, from, audio, log, v.audio, v.split_actions(at)),
{
    let r = v.split(at);
    assert(at == 16 * ms_of(at));
    assert(r.utt =~= audio.skip(16 * r.utt_start));
    assert(v.utt.take(at) =~= audio.subrange(16 * v.utt_start, 16 * v.utt_start + at));
    lemma_heard_before(log, log.len() as int, v.audio);
    assert(log.skip(log.len() as int) =~= Seq::empty());
    reveal(Seq::filter);
    assert(r.share =~= heard_since(log, v.audio));
}

proof fn lemma_started_remembers(
    v: SegmenterView,
    audio: Seq<Single>,
    log: Seq<(int, SourceKind, Single)>,
    from: int,
    start: int,
)
    requires
        aligned(v),
        sane(v),
        remembers(v, audio, log, from),
        !v.in_speech,
        0 <= start <= v.audio,
        start >= v.audio - 1900,
    ensures
        remembers(v.started(start), audio, log, v.started(start).utt_start),
{
    let r = v.started(start);
    let s = r.utt_start;
    let len = v.history.len() as int;
    assert(v.history_max() == 16 * (v.cfg.max_utterance_ms + 3000));
    assert(len % 16 == 0);
    let history_start = v.audio - ms_of(len);
    assert(s >= history_start);
    assert(v.sample_index(s) == 16 * (s - history_start));
    assert(r.utt =~= audio.skip(16 * s));
    lemma_energies_since(v.ring, s);
    lemma_heard_before(log, log.len() - v.ring.len(), s);
}

proof fn lemma_reaction_remembers(
    v: SegmenterView,
    audio: Seq<Single>,
    log: Seq<(int, SourceKind, Single)>,
    from: int,
    spans: Seq<SpeechSpan>,
) -> (then: int)
    requires
        aligned(v),
        sane(v),
        remembers(v, audio, log, from),
        !v.in_speech ==> crate::audio::vad::spans_within(spans, v.window_start(), v.audio),
    ensures
        remembers(v.reacted(spans), audio, log, then),
        goes_on(v, from, v.reacted(spans), then),
        handed_on(v, from, audio, log, v.audio, v.reacted_actions(spans)),
{
    let w = v.noted(spans);
    if !v.in_speech {
        if v.speech_now(spans) {
            lemma_joined_start(
                spans,
                spans.len() - 1,
                v.cfg.min_silence_ms + 250,
                v.window_start(),
                v.audio,
            );
            lemma_started_remembers(w, audio, log, from, v.onset(spans));
            v.reacted(spans).utt_start
        } else {
            from
        }
    } else if spans.len() >= 2 {
        lemma_ended_remembers(
            w,
            audio,
            log,
            from,
            larger(spans[spans.len() - 2].end_ms as int, v.utt_start + 1),
        );
        from
    } else if w.gone_silent(spans) {
        lemma_ended_remembers(w, audio, log, from, larger(w.last_speech_end, v.utt_start + 1));
        from
    } else {
        from
    }
}

proof fn lemma_listening_remembers<L, P, S, E>(
    v: SegmenterView,
    acoustics: &Acoustics<L, P, S, E>,
    after: SegmenterView,
    actions: Seq<ActionView>,
    audio: Seq<Single>,
    log: Seq<(int, SourceKind, Single)>,
    from: int,
) -> (then: int) where
    L: Fn(&[Single]) -> Single,
    P: Fn(&[Single]) -> Single,
    S: Fn(Single, Single) -> Single,
    E: Fn(&[Single]) -> Double,

    requires
        aligned(v),
        sane(v),
        remembers(v, audio, log, from),
        listened(v, acoustics, after, actions),
    ensures
        remembers(after, audio, log, then),
        goes_on(v, from, after, then),
        handed_on(v, from, audio, log, v.audio, actions),
        after.audio == v.audio,
        v.in_speech && after.in_speech ==> after.utt_id == v.utt_id,
        !v.in_speech && after.in_speech ==> after.utt_id == v.utt_id + 1,
{
    if v.window().len() >= 8000 {
        let (state, spans) = choose|state: EnergyState, spans: Seq<SpeechSpan>|
            {
                let heard = shifted(overlaps_clamped(spans), v.window_start());
                let w = SegmenterView { vad: state, ..v };
                &&& #[trigger] acoustics.detects(
                    v.window(),
                    v.cfg.energy_threshold_db,
                    v.cfg.min_speech_ms,
                    v.cfg.min_silence_ms,
                    v.cfg.speech_pad_ms,
                    v.vad,
                    v.in_speech,
                    state,
                    spans,
                )
                &&& after == w.reacted(heard)
                &&& actions == w.reacted_actions(heard)
            };
        let heard = shifted(overlaps_clamped(spans), v.window_start());
        let w = SegmenterView { vad: state, ..v };
        if !v.in_speech {
            lemma_detected_within(
                acoustics,
                v.window(),
                v.cfg.energy_threshold_db,
                v.cfg.min_speech_ms,
                v.cfg.min_silence_ms,
                v.cfg.speech_pad_ms,
                v.vad,
                v.in_speech,
                state,
                spans,
            );
            law_clamped_spans_are_apart(spans, 0, framed_ms(v.window()));
            lemma_idle_window(v);
            let apart = overlaps_clamped(spans);
            assert forall|i: int| 0 <= i < heard.len() implies v.window_start() <= (
            #[trigger] heard[i]).start_ms <= heard[i].end_ms <= v.audio by {
                assert(0 <= apart[i].start_ms <= apart[i].end_ms <= framed_ms(v.window()));
            }
        }
        lemma_reaction_remembers(w, audio, log, from, heard)
    } else {
        from
    }
}

proof fn lemma_handed_on_joined(
    v: SegmenterView,
    from: int,
    audio: Seq<Single>,
    log: Seq<(int, SourceKind, Single)>,
    now: int,
    a: Seq<ActionView>,
    b: Seq<ActionView>,
)
    requires
        handed_on(v, from, audio, log, now, a),
        handed_on(v, from, audio, log, now, b),
    ensures
        handed_on(v, from, audio, log, now, a + b),
{
    let c = a + b;
    assert forall|i: int| 0 <= i < c.len() implies carries(
        v,
        from,
        audio,
        log,
        now,
        #[trigger] c[i],
    ) by {
        if i < a.len() {
            assert(c[i] == a[i]);
        } else {
            assert(c[i] == b[i - a.len()]);
        }
    }
}

proof fn lemma_length_check_remembers<L, P, S, E>(
    v: SegmenterView,
    acoustics: &Acoustics<L, P, S, E>,
    after: SegmenterView,
    actions: Seq<ActionView>,
    audio: Seq<Single>,
    log: Seq<(int, SourceKind, Single)>,
    from: int,
) -> (then: int) where
    L: Fn(&[Single]) -> Single,
    P: Fn(&[Single]) -> Single,
    S: Fn(Single, Single) -> Single,
    E: Fn(&[Single]) -> Double,

    requires
        aligned(v),
        sane(v),
        remembers(v, audio, log, from),
        length_checked(v, acoustics, after, actions),
    ensures
        remembers(after, audio, log, then),
        handed_on(v, from, audio, log, v.audio, actions),
        after.in_speech == v.in_speech,
        after.audio == v.audio,
        after == v && then == from || v.in_speech && after.utt_id == v.utt_id + 1 && then
            == v.audio,
{
    if v.too_long() {
        let energies = choose|energies: Seq<Double>|
            {
                &&& #[trigger] cut_energies(v, acoustics, energies)
                &&& after == v.split(v.candidate(quietest(energies).0))
                &&& actions == v.split_actions(v.candidate(quietest(energies).0))
            };
        lemma_quietest(energies);
        lemma_cut_remembers(v, audio, log, from, v.candidate(quietest(energies).0));
        v.audio
    } else {
        from
    }
}

/// What listening hands on after a cut is the part after the cut.
proof fn lemma_handed_on_after_cut(
    v: SegmenterView,
    from: int,
    w: SegmenterView,
    mid: int,
    audio: Seq<Single>,
    log: Seq<(int, SourceKind, Single)>,
    now: int,
    actions: Seq<ActionView>,
)
    requires
        handed_on(w, mid, audio, log, now, actions),
        forall|i: int|
            0 <= i < actions.len() ==> (#[trigger] actions[i] matches ActionView::Job(
                JobView::Final { utt_id, samples, start, end, share },
            ) ==> utt_id == w.utt_id),
        w.in_speech == v.in_speech,
        w.utt_id == v.utt_id && w.utt_start == v.utt_start && mid == from || w.utt_id == v.utt_id + 1
            && mid == now,
    ensures
        handed_on(v, from, audio, log, now, actions),
{
    assert forall|i: int| 0 <= i < actions.len() implies carries(
        v,
        from,
        audio,
        log,
        now,
        #[trigger] actions[i],
    ) by {
        assert(carries(w, mid, audio, log, now, actions[i]));
    }
}

/// A step with a frame of whole milliseconds keeps what was heard: the audio of the
/// current utterance is all audio from its start on, its energies are those of all
/// frames from its start on (after a cut, from the cut on), and utterances that are
/// handed on hold exactly that.
pub proof fn law_step_remembers_what_was_heard<L, P, S, E>(
    v: SegmenterView,
    f: FrameView,
    acoustics: &Acoustics<L, P, S, E>,
    after: SegmenterView,
    actions: Seq<ActionView>,
    audio: Seq<Single>,
    log: Seq<(int, SourceKind, Single)>,
    from: int,
) -> (then: int) where
    L: Fn(&[Single]) -> Single,
    P: Fn(&[Single]) -> Single,
    S: Fn(Single, Single) -> Single,
    E: Fn(&[Single]) -> Double,

    requires
        aligned(v),
        sane(v),
        within_limit(v),
        remembers(v, audio, log, from),
        f.samples.len() % 16 == 0,
        v.fed + f.samples.len() <= MAX_SAMPLES,
        stepped(v, f.samples, f.levels, acoustics, after, actions),
    ensures
        remembers(after, audio + f.samples, log + frame_energies(f, v.audio), then),
        goes_on(v, from, after, then),
        handed_on(
            v,
            from,
            audio + f.samples,
            log + frame_energies(f, v.audio),
            after.audio,
            actions,
        ),
{
    if f.samples.len() == 0 {
        assert(audio + f.samples =~= audio);
        assert(log + frame_energies(f, v.audio) =~= log);
        from
    } else {
        let all = audio + f.samples;
        let whole = log + frame_energies(f, v.audio);
        let v0 = v.accepted(f.samples, f.levels);
        let (v1, a1, v2, a2) = choose|
            v1: SegmenterView,
            a1: Seq<ActionView>,
            v2: SegmenterView,
            a2: Seq<ActionView>,
        |
            {
                &&& #[trigger] length_checked(v0, acoustics, v1, a1)
                &&& #[trigger] listened_if_due(v1, acoustics, v2, a2)
                &&& after == v2.previewed()
                &&& actions == a1 + a2 + v2.previewed_actions()
            };
        lemma_accepted_remembers(v, f, audio, log, from);
        lemma_length_checked(
            v0,
            acoustics,
            v1,
            a1,
            v.cfg.max_utterance_ms + ms_of(f.samples.len() as int),
        );
        let mid = lemma_length_check_remembers(v0, acoustics, v1, a1, all, whole, from);
        let then = lemma_due_remembers(v1, acoustics, v2, a2, all, whole, mid);
        assert forall|i: int| 0 <= i < a2.len() implies (#[trigger] a2[i] matches ActionView::Job(
            JobView::Final { utt_id, samples, start, end, share },
        ) ==> utt_id == v1.utt_id) by {
            lemma_only_this_utterance(v1, acoustics, v2, a2, i);
        }
        lemma_handed_on_after_cut(v0, from, v1, mid, all, whole, v0.audio, a2);
        lemma_handed_on_joined(v0, from, all, whole, v0.audio, a1, a2);
        lemma_handed_on_joined(v0, from, all, whole, v0.audio, a1 + a2, v2.previewed_actions());
        lemma_same_handed_on(v0, v, from, all, whole, v0.audio, actions);
        then
    }
}

proof fn lemma_same_handed_on(
    v: SegmenterView,
    w: SegmenterView,
    from: int,
    audio: Seq<Single>,
    log: Seq<(int, SourceKind, Single)>,
    now: int,
    actions: Seq<ActionView>,
)
    requires
        handed_on(v, from, audio, log, now, actions),
        w.in_speech == v.in_speech,
        w.utt_id == v.utt_id,
        w.utt_start == v.utt_start,
    ensures
        handed_on(w, from, audio, log, now, actions),
{
    assert forall|i: int| 0 <= i < actions.len() implies carries(
        w,
        from,
        audio,
        log,
        now,
        #[trigger] actions[i],
    ) by {
        assert(carries(v, from, audio, log, now, actions[i]));
    }
}

proof fn lemma_due_remembers<L, P, S, E>(
    v: SegmenterView,
    acoustics: &Acoustics<L, P, S, E>,
    after: SegmenterView,
    actions: Seq<ActionView>,
    audio: Seq<Single>,
    log: Seq<(int, SourceKind, Single)>,
    from: int,
) -> (then: int) where
    L: Fn(&[Single]) -> Single,
    P: Fn(&[Single]) -> Single,
    S: Fn(Single, Single) -> Single,
    E: Fn(&[Single]) -> Double,

    requires
        aligned(v),
        sane(v),
        remembers(v, audio, log, from),
        listened_if_due(v, acoustics, after, actions),
    ensures
        remembers(after, audio, log, then),
        goes_on(v, from, after, then),
        handed_on(v, from, audio, log, v.audio, actions),
        after.audio == v.audio,
        v.in_speech && after.in_speech ==> after.utt_id == v.utt_id,
        !v.in_speech && after.in_speech ==> after.utt_id == v.utt_id + 1,
{
    if v.audio - v.last_vad >= 500 {
        let w = SegmenterView { last_vad: v.audio, ..v };
        let then = lemma_listening_remembers(w, acoustics, after, actions, audio, log, from);
        lemma_same_handed_on(w, v, from, audio, log, v.audio, actions);
        then
    } else {
        from
    }
}

/// Listening hands on no utterance but the current one.
proof fn lemma_only_this_utterance<L, P, S, E>(
    v: SegmenterView,
    acoustics: &Acoustics<L, P, S, E>,
    after: SegmenterView,
    actions: Seq<ActionView>,
    i: int,
) where
    L: Fn(&[Single]) -> Single,
    P: Fn(&[Single]) -> Single,
    S: Fn(Single, Single) -> Single,
    E: Fn(&[Single]) -> Double,

    requires
        listened_if_due(v, acoustics, after, actions),
        0 <= i < actions.len(),
    ensures
        actions[i] matches ActionView::Job(
            JobView::Final { utt_id, samples, start, end, share },
        ) ==> utt_id == v.utt_id,
{
}

/// [`goes_on`] from one state of a session to the next.
pub open spec fn goes_on_at(states: Seq<SegmenterView>, froms: Seq<int>, n: int) -> bool {
    goes_on(states[n], froms[n], states[n + 1], froms[n + 1])
}

/// The frames, states and requests of a session agree: at each time the segmenter
/// remembers all that was heard so far, `froms` being the times from which on energies
/// count.
pub open spec fn heard_throughout(
    states: Seq<SegmenterView>,
    frames: Seq<FrameView>,
    actions: Seq<Seq<ActionView>>,
    froms: Seq<int>,
) -> bool {
    &&& froms.len() == states.len()
    &&& forall|n: int|
        0 <= n <= frames.len() ==> remembers(
            #[trigger] states[n],
            recorded(frames.take(n)),
            all_energies(frames.take(n)),
            froms[n],
        )
    &&& forall|n: int| 0 <= n < frames.len() ==> #[trigger] goes_on_at(states, froms, n)
    &&& forall|n: int|
        0 <= n < frames.len() ==> handed_on(
            states[n],
            froms[n],
            recorded(frames.take(n + 1)),
            all_energies(frames.take(n + 1)),
            states[n + 1].audio,
            #[trigger] actions[n],
        )
}

/// A whole session, from a fresh segmenter on, with frames of whole milliseconds:
/// every utterance that is handed on holds the audio that was recorded from its start
/// on, and the energies of every source in every frame from there on, none missing
/// and none added; where it goes on with one that was cut, from the cut on.
pub proof fn law_session_remembers_what_was_heard<L, P, S, E>(
    cfg: VadSettings,
    live_preview: bool,
    acoustics: &Acoustics<L, P, S, E>,
    states: Seq<SegmenterView>,
    frames: Seq<FrameView>,
    actions: Seq<Seq<ActionView>>,
    longest: int,
) where
    L: Fn(&[Single]) -> Single,
    P: Fn(&[Single]) -> Single,
    S: Fn(Single, Single) -> Single,
    E: Fn(&[Single]) -> Double,

    requires
        sane(fresh(cfg, live_preview)),
        runs(acoustics, states, frames, actions),
        states[0] == (SegmenterView {
            single_source: states[0].single_source,
            ..fresh(cfg, live_preview)
        }),
        whole_frames(frames, longest),
        samples_of(frames) <= MAX_SAMPLES,
    ensures
        exists|froms: Seq<int>| #[trigger] heard_throughout(states, frames, actions, froms),
    decreases frames.len(),
{
    if frames.len() == 0 {
        let froms = seq![0int];
        assert(frames.take(0) =~= frames);
        assert(states[0].history_max() == 16 * (cfg.max_utterance_ms + 3000));
        assert(states[0].history =~= recorded(frames).skip(0));
        assert(states[0].ring =~= all_energies(frames).skip(0));
        assert(remembers(states[0], recorded(frames), all_energies(frames), 0));
        assert(heard_throughout(states, frames, actions, froms));
    } else {
        let n = frames.len() - 1;
        let earlier = frames.drop_last();
        let before = states.drop_last();
        let asked = actions.drop_last();
        lemma_earlier_run(acoustics, states, frames, actions, longest);
        lemma_whole_samples(earlier, longest);
        law_session_remembers_what_was_heard(
            cfg,
            live_preview,
            acoustics,
            before,
            earlier,
            asked,
            longest,
        );
        crate::pipeline::timeline::law_session_keeps_the_timeline(
            cfg,
            live_preview,
            acoustics,
            before,
            earlier,
            asked,
            longest,
        );
        let old = choose|froms: Seq<int>| #[trigger] heard_throughout(before, earlier, asked, froms);
        assert(before.last() == states[n]);
        assert(earlier.take(n) =~= earlier);
        assert(frames.take(n) =~= earlier);
        assert(frames.take(n + 1) =~= frames);
        assert(remembers(before[n], recorded(earlier), all_energies(earlier), old[n]));
        assert(frames[n].samples.len() % 16 == 0);
        assert(stepped(
            states[n],
            frames[n].samples,
            frames[n].levels,
            acoustics,
            states[n + 1],
            actions[n],
        ));
        assert(states[n].audio == ms_of(samples_of(earlier)));
        let then = law_step_remembers_what_was_heard(
            states[n],
            frames[n],
            acoustics,
            states[n + 1],
            actions[n],
            recorded(earlier),
            all_energies(earlier),
            old[n],
        );
        lemma_heard_one_more(states, frames, actions, old, then);
    }
}

proof fn lemma_heard_one_more(
    states: Seq<SegmenterView>,
    frames: Seq<FrameView>,
    actions: Seq<Seq<ActionView>>,
    old: Seq<int>,
    then: int,
)
    requires
        frames.len() > 0,
        states.len() == frames.len() + 1,
        actions.len() == frames.len(),
        heard_throughout(states.drop_last(), frames.drop_last(), actions.drop_last(), old),
        remembers(states.last(), recorded(frames), all_energies(frames), then),
        goes_on(states[frames.len() - 1], old[frames.len() - 1], states.last(), then),
        handed_on(
            states[frames.len() - 1],
            old[frames.len() - 1],
            recorded(frames),
            all_energies(frames),
            states.last().audio,
            actions.last(),
        ),
    ensures
        heard_throughout(states, frames, actions, old.push(then)),
{
    let n = frames.len() - 1;
    let earlier = frames.drop_last();
    let before = states.drop_last();
    let asked = actions.drop_last();
    let froms = old.push(then);
    assert(frames.take(n + 1) =~= frames);
    assert forall|k: int| 0 <= k <= frames.len() implies remembers(
        #[trigger] states[k],
        recorded(frames.take(k)),
        all_energies(frames.take(k)),
        froms[k],
    ) by {
        if k <= n {
            assert(before[k] == states[k]);
            assert(earlier.take(k) =~= frames.take(k));
        }
    }
    assert forall|k: int| 0 <= k < frames.len() implies #[trigger] goes_on_at(
        states,
        froms,
        k,
    ) by {
        if k < n {
            assert(goes_on_at(before, old, k));
            assert(before[k] == states[k] && before[k + 1] == states[k + 1]);
        }
    }
    assert forall|k: int| 0 <= k < frames.len() implies handed_on(
        states[k],
        froms[k],
        recorded(frames.take(k + 1)),
        all_energies(frames.take(k + 1)),
        states[k + 1].audio,
        #[trigger] actions[k],
    ) by {
        if k < n {
            assert(asked[k] == actions[k]);
            assert(before[k] == states[k] && before[k + 1] == states[k + 1]);
            assert(earlier.take(k + 1) =~= frames.take(k + 1));
        }
    }
}

/// At the end of a session the utterance that is still open is handed on in the same
/// way, with all audio and all energies.
pub proof fn law_flush_hands_on_what_was_heard<L, P, S, E>(
    v: SegmenterView,
    acoustics: &Acoustics<L, P, S, E>,
    after: SegmenterView,
    actions: Seq<ActionView>,
    audio: Seq<Single>,
    log: Seq<(int, SourceKind, Single)>,
    from: int,
) where
    L: Fn(&[Single]) -> Single,
    P: Fn(&[Single]) -> Single,
    S: Fn(Single, Single) -> Single,
    E: Fn(&[Single]) -> Double,

    requires
        aligned(v),
        sane(v),
        within_limit(v),
        remembers(v, audio, log, from),
        flushed(v, acoustics, after, actions),
    ensures
        handed_on(v, from, audio, log, v.audio, actions),
        !after.in_speech,
{
    if v.in_speech {
        let (v1, a1) = choose|v1: SegmenterView, a1: Seq<ActionView>|
            {
                let end = smaller(larger(v1.last_speech_end, v1.utt_start + 1), v1.audio);
                &&& #[trigger] listened(v, acoustics, v1, a1)
                &&& if v1.in_speech {
                    after == v1.finalized(end) && actions == a1 + v1.finalized_actions(end)
                } else {
                    after == v1 && actions == a1
                }
            };
        lemma_listened(v, acoustics, v1, a1, v.cfg.max_utterance_ms as int);
        let mid = lemma_listening_remembers(v, acoustics, v1, a1, audio, log, from);
        if v1.in_speech {
            let end = smaller(larger(v1.last_speech_end, v1.utt_start + 1), v1.audio);
            lemma_ended_remembers(v1, audio, log, mid, end);
            assert(mid == from);
            lemma_same_utterance(v, acoustics, v1, a1);
            lemma_handed_on_joined(v, from, audio, log, v.audio, a1, v1.finalized_actions(end));
        }
    }
}

/// Listening leaves the start of an utterance that goes on where it is.
proof fn lemma_same_utterance<L, P, S, E>(
    v: SegmenterView,
    acoustics: &Acoustics<L, P, S, E>,
    after: SegmenterView,
    actions: Seq<ActionView>,
) where
    L: Fn(&[Single]) -> Single,
    P: Fn(&[Single]) -> Single,
    S: Fn(Single, Single) -> Single,
    E: Fn(&[Single]) -> Double,

    requires
        listened(v, acoustics, after, actions),
        v.in_speech,
        after.in_speech,
    ensures
        after.utt_start == v.utt_start,
        after.utt_id == v.utt_id,
{
}

/// What [`Segmenter::push_frame`] does while somebody speaks and nothing ends: the
/// utterance goes on with the frame's audio, and with the energies of all its sources.
pub proof fn law_pushed_frames_extend_the_utterance<L, P, S, E>(
    segmenter: &mut Segmenter,
    samples: &[Single],
    levels: &[(String, SourceKind, FrameEnergy)],
    acoustics: &Acoustics<L, P, S, E>,
    actions: Vec<SegmenterAction>,
) where
    L: Fn(&[Single]) -> Single,
    P: Fn(&[Single]) -> Single,
    S: Fn(Single, Single) -> Single,
    E: Fn(&[Single]) -> Double,

    requires
        call_ensures(
            Segmenter::push_frame::<L, P, S, E>,
            (segmenter, samples, levels, acoustics),
            actions,
        ),
        samples@.len() > 0,
        old(segmenter)@.in_speech,
        final(segmenter)@.in_speech,
        final(segmenter)@.utt_id == old(segmenter)@.utt_id,
    ensures
        ({
            let heard = Seq::new(levels@.len(), |i: int| (levels@[i].1, levels@[i].2.rms));
            &&& final(segmenter)@.share == old(segmenter)@.share + heard
            &&& final(segmenter)@.utt == old(segmenter)@.utt + samples@
            &&& final(segmenter)@.utt_start == old(segmenter)@.utt_start
        }),
{
    let v = old(segmenter)@;
    let after = final(segmenter)@;
    let done = action_views(actions@);
    let v0 = v.accepted(samples@, levels@);
    let heard = Seq::new(levels@.len(), |i: int| (levels@[i].1, levels@[i].2.rms));
    assert(level_energies(levels@) =~= heard);
    let (v1, a1, v2, a2) = choose|
        v1: SegmenterView,
        a1: Seq<ActionView>,
        v2: SegmenterView,
        a2: Seq<ActionView>,
    |
        {
            &&& #[trigger] length_checked(v0, acoustics, v1, a1)
            &&& #[trigger] listened_if_due(v1, acoustics, v2, a2)
            &&& after == v2.previewed()
            &&& done == a1 + a2 + v2.previewed_actions()
        };
    lemma_length_check_same(v0, acoustics, v1, a1);
    lemma_listening_same(v1, acoustics, v2, a2);
}

proof fn lemma_length_check_same<L, P, S, E>(
    v: SegmenterView,
    acoustics: &Acoustics<L, P, S, E>,
    after: SegmenterView,
    actions: Seq<ActionView>,
) where
    L: Fn(&[Single]) -> Single,
    P: Fn(&[Single]) -> Single,
    S: Fn(Single, Single) -> Single,
    E: Fn(&[Single]) -> Double,

    requires
        length_checked(v, acoustics, after, actions),
        v.in_speech,
    ensures
        after == v || !after.in_speech || after.utt_id == v.utt_id + 1,
{
}

proof fn lemma_listening_same<L, P, S, E>(
    v: SegmenterView,
    acoustics: &Acoustics<L, P, S, E>,
    after: SegmenterView,
    actions: Seq<ActionView>,
) where
    L: Fn(&[Single]) -> Single,
    P: Fn(&[Single]) -> Single,
    S: Fn(Single, Single) -> Single,
    E: Fn(&[Single]) -> Double,

    requires
        listened_if_due(v, acoustics, after, actions),
        after.in_speech,
    ensures
        v.in_speech ==> after.utt_id == v.utt_id && after.utt == v.utt && after.share == v.share
            && after.utt_start == v.utt_start,
        !v.in_speech ==> after.utt_id == v.utt_id + 1,
{
}

/// What [`Segmenter::finalize`] hands on: the whole utterance with all its energies, if
/// it is long enough.
pub proof fn law_ended_utterances_are_handed_on(
    segmenter: &mut Segmenter,
    end_ms: i64,
    actions: &mut Vec<SegmenterAction>,
)
    requires
        call_ensures(Segmenter::finalize, (segmenter, end_ms, actions), ()),
        old(segmenter)@.utt.len() > 0,
        old(segmenter)@.utt.len() * 1000 / 16000 >= old(segmenter)@.cfg.min_speech_ms,
    ensures
        ({
            let all = action_views(final(actions)@);
            let v = old(segmenter)@;
            &&& all.len() >= 2
            &&& all[all.len() - 2] matches ActionView::Job(
                JobView::Final { utt_id, samples, start, end, share },
            ) && utt_id == v.utt_id && samples == v.utt && start == v.utt_start && share == v.share
            &&& !final(segmenter)@.in_speech
        }),
{
    law_ended_utterance_is_handed_on_whole(old(segmenter)@, end_ms as int);
    let given = action_views(old(actions)@);
    let more = old(segmenter)@.finalized_actions(end_ms as int);
    let all = action_views(final(actions)@);
    assert(all[all.len() - 2] == more[more.len() - 2]);
}

/// Speech that is interrupted by short pauses only is connected: it begins where the
/// first of its parts does.
pub proof fn law_short_pauses_join_speech(spans: Seq<SpeechSpan>, k: int, i: int, gap: int)
    requires
        0 <= k <= i < spans.len(),
        forall|n: int|
            k < n <= i ==> (#[trigger] spans[n]).start_ms - spans[n - 1].end_ms <= gap,
        k > 0 ==> spans[k].start_ms - spans[k - 1].end_ms > gap,
    ensures
        joined_start(spans, i, gap) == spans[k].start_ms,
    decreases i,
{
    if i > k {
        assert(spans[i].start_ms - spans[i - 1].end_ms <= gap);
        law_short_pauses_join_speech(spans, k, i - 1, gap);
    }
}

/// Where speech ended last is where the last of what was detected ends, if that is
/// later than what is known; and speech counts as heard now if it reaches up to now.
pub proof fn law_end_of_speech_is_noted(v: SegmenterView, spans: Seq<SpeechSpan>)
    ensures
        ({
            let r = v.noted(spans);
            &&& spans.len() > 0 ==> r.last_speech_end >= spans.last().end_ms
            &&& r.last_speech_end >= v.last_speech_end
            &&& spans.len() > 0 ==> r.last_speech_end == spans.last().end_ms || r.last_speech_end
                == v.last_speech_end
            &&& spans.len() == 0 ==> r == v
            &&& spans.len() > 0 && spans.last().end_ms >= v.audio - 450 ==> r.last_seen == v.audio
            &&& spans.len() > 0 && spans.last().end_ms < v.audio - 450 ==> r.last_seen
                == v.last_seen
            &&& r.utt == v.utt && r.share == v.share && r.utt_start == v.utt_start
        }),
{
}

/// Speech is looked for every half second of audio.
pub proof fn law_speech_is_looked_for_every_half_second<L, P, S, E>(
    v: SegmenterView,
    acoustics: &Acoustics<L, P, S, E>,
    after: SegmenterView,
    actions: Seq<ActionView>,
) where
    L: Fn(&[Single]) -> Single,
    P: Fn(&[Single]) -> Single,
    S: Fn(Single, Single) -> Single,
    E: Fn(&[Single]) -> Double,

    requires
        listened_if_due(v, acoustics, after, actions),
    ensures
        v.audio - v.last_vad < 500 ==> after == v && actions.len() == 0,
        v.audio - v.last_vad >= 500 ==> listened(
            (SegmenterView { last_vad: v.audio, ..v }),
            acoustics,
            after,
            actions,
        ),
        v.in_speech && v.utt_start <= v.audio ==> v.window_start() == v.utt_start,
        !v.in_speech && v.audio >= 1_500 ==> v.window_start() == v.audio - 1_500,
{
}

/// An utterance that reached its limit is cut within its last three seconds, at a place
/// after which at least a fifth of a second follows.
pub proof fn law_cuts_are_near_the_end(v: SegmenterView, k: int)
    requires
        v.in_speech,
        v.utt.len() % 16 == 0,
        v.utt.len() >= 48_000,
        0 <= k < v.candidates(),
    ensures
        v.utt.len() - 48_000 <= v.candidate(k) <= v.utt.len() - 3_200,
        v.candidate(0) == v.utt.len() - 48_000,
        v.candidates() == 29,
        v.too_long() == (v.utt.len() * 1000 / 16000 >= v.cfg.max_utterance_ms),
{
}

} // verus!
