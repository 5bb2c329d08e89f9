//! Recognition of utterances.

use meeting_hear::asr::client::AsrOutcome;
use meeting_hear::asr::provider::provider_from_preset;
use meeting_hear::audio::capture::SourceKind;
use meeting_hear::error::AppError;
use meeting_hear::events::{AppEvent, AsrStateKind};
use meeting_hear::num::{Double, Single};
use meeting_hear::pipeline::segmenter::{AsrJob, SegmenterAction, SourceShare};
use meeting_hear::pipeline::worker::{
    action_event, context_prompt, median_i64, median_single, starting_event, AsrWorker,
    AsrWorkerConfig, Pending, Received,
};
use meeting_hear::session::{Session, SessionConfig, Speaker};
use meeting_hear::settings::AsrSettings;

fn single(x: f32) -> Single {
    Single { bits: x.to_bits() }
}

fn float(x: Single) -> f32 {
    f32::from_bits(x.bits)
}

fn config(live_preview: bool) -> AsrWorkerConfig {
    AsrWorkerConfig {
        session_id: "s1".into(),
        provider: provider_from_preset("groq"),
        settings: AsrSettings { live_preview, temperature: single(0.25), ..Default::default() },
        single_source: Some(SourceKind::Microphone),
        ai_ready: true,
    }
}

fn partial(utt_id: u64, preview: u64) -> AsrJob {
    AsrJob::Partial { utt_id, samples: vec![single(0.1); 16_000], start_ms: 500, preview }
}

fn complete(utt_id: u64) -> AsrJob {
    AsrJob::Final {
        utt_id,
        samples: vec![single(0.1); 48_000],
        start_ms: 500,
        end_ms: 3_500,
        share: SourceShare::empty(),
    }
}

fn outcome(text: &str, elapsed_ms: u64) -> AsrOutcome {
    AsrOutcome { text: text.into(), language: None, elapsed_ms, audio_ms: 3_000 }
}

fn session() -> Session {
    Session::new("会议".into(), SessionConfig::default())
}

#[test]
fn medians() {
    assert_eq!(median_i64(&vec![]), 0);
    assert_eq!(median_i64(&vec![9, 1, 5]), 5);
    assert_eq!(median_i64(&vec![4, 3, 2, 1]), 3);
    assert_eq!(float(median_single(&vec![])), 0.0);
    assert_eq!(float(median_single(&vec![single(0.5), single(0.125), single(3.0)])), 0.5);
}

#[test]
fn context_is_the_end_of_what_is_known() {
    assert_eq!(context_prompt(false, &Some("x".into())), None);
    assert_eq!(context_prompt(true, &None), None);
    let long = "字".repeat(200);
    let p = context_prompt(true, &Some(long)).unwrap();
    assert_eq!(p.chars().count(), 121);
}

#[test]
fn the_first_event_names_the_service() {
    match starting_event(&config(false)) {
        AppEvent::State(s) => {
            assert_eq!(s.state, AsrStateKind::Starting);
            let m = s.message.unwrap();
            assert!(m.starts_with("正在连接识别服务「") && m.ends_with("）…"), "{m}");
        }
        _ => unreachable!(),
    }
}

#[test]
fn speech_and_silence_are_shown() {
    let state = |a: &SegmenterAction| match action_event(a, "s1") {
        Some(AppEvent::State(s)) => Some(s.state),
        _ => None,
    };
    assert_eq!(state(&SegmenterAction::SpeechStarted { start_ms: 0 }), Some(AsrStateKind::Speech));
    assert_eq!(state(&SegmenterAction::SpeechEnded { end_ms: 9 }), Some(AsrStateKind::Listening));
    assert_eq!(state(&SegmenterAction::PreviewAborted { preview: 1 }), None);
    assert_eq!(state(&SegmenterAction::Job(complete(1))), None);
}

#[test]
fn the_worker_ends_only_when_nothing_is_left() {
    let mut w = AsrWorker::new(&config(true));
    assert!(!w.receive(Received::Nothing));
    assert!(!w.receive(Received::Job(partial(1, 1))));
    assert!(!w.receive(Received::Job(complete(1))));
    assert!(!w.receive(Received::Closed));
    assert!(matches!(w.next_job(), Some(AsrJob::Final { utt_id: 1, .. })));
    assert!(w.next_job().is_none());
    assert!(w.receive(Received::Closed));
}

#[test]
fn previews_are_asked_for_only_where_wanted() {
    let mut off = AsrWorker::new(&config(false));
    assert!(off.begin(partial(1, 1), false).is_none());
    let mut on = AsrWorker::new(&config(true));
    assert!(on.begin(partial(1, 1), true).is_none());
    let (req, pending) = on.begin(partial(1, 2), false).unwrap();
    assert_eq!(req.samples.len(), 16_000);
    assert_eq!(req.prompt, None);
    assert_eq!(float(req.temperature), 0.25);
    match pending {
        Pending::Partial { start_ms, preview, audio_ms } => {
            assert_eq!((start_ms, preview, audio_ms), (500, 2, 1_000))
        }
        _ => unreachable!(),
    }
}

#[test]
fn previews_settle_what_two_of_them_agree_on() {
    let mut w = AsrWorker::new(&config(true));
    w.begin(partial(1, 1), false);
    let e = w.preview_reply(Some("今天我们讨论"), 500, 1_000, false).unwrap();
    match e {
        AppEvent::Partial(p) => {
            assert_eq!((p.committed.as_str(), p.tentative.as_str()), ("", "今天我们讨论"));
            assert_eq!(p.start_ms, 500);
        }
        _ => unreachable!(),
    }
    w.begin(partial(1, 2), false);
    match w.preview_reply(Some("今天我们讨论增长"), 500, 1_500, false).unwrap() {
        AppEvent::Partial(p) => {
            assert_eq!((p.committed.as_str(), p.tentative.as_str()), ("今天我们讨", "论增长"));
        }
        _ => unreachable!(),
    }
    // another utterance begins from nothing
    w.begin(partial(2, 3), false);
    match w.preview_reply(Some("今天我们讨论增长"), 9_000, 1_500, false).unwrap() {
        AppEvent::Partial(p) => assert_eq!(p.committed, ""),
        _ => unreachable!(),
    }
}

#[test]
fn stale_failed_and_doubtful_previews_show_nothing() {
    let mut w = AsrWorker::new(&config(true));
    w.begin(partial(1, 1), false);
    assert!(w.preview_reply(Some("今天"), 0, 1_000, true).is_none());
    assert!(w.preview_reply(None, 0, 1_000, false).is_none());
    assert!(w.preview_reply(Some("谢谢观看"), 0, 1_000, false).is_none());
    assert!(w.preview_reply(Some(" "), 0, 1_000, false).is_none());
}

#[test]
fn a_reply_becomes_a_segment() {
    let mut w = AsrWorker::new(&config(false));
    let mut s = session();
    w.begin(complete(1), false).unwrap();
    let (events, news) = w.final_reply(
        Ok(outcome(" 我们先过一下进度。 ", 300)),
        Speaker::Me,
        single(0.1),
        500,
        3_500,
        3_000,
        &mut s,
    );
    assert!(news);
    assert_eq!(s.segments.len(), 1);
    assert_eq!(s.segments[0].text, "我们先过一下进度。");
    assert_eq!((s.segments[0].start_ms, s.segments[0].end_ms), (500, 3_500));
    assert_eq!(s.stats.latency_ms, 300);
    assert_eq!(float(s.stats.rtf), 0.1);
    assert_eq!(events.len(), 2);
    match &events[0] {
        AppEvent::Segment(e) => {
            assert_eq!(e.segment.id, 1);
            assert_eq!(e.session_id, "s1");
            assert_eq!(e.speaker, Speaker::Me);
        }
        _ => unreachable!(),
    }
    assert_eq!(events[1].name(), "asr:partial");
    // the text is the context of the next request
    let (req, _) = w.begin(complete(2), false).unwrap();
    assert_eq!(req.prompt.as_deref(), Some("我们先过一下进度。"));
}

#[test]
fn a_doubtful_reply_is_kept_but_marked() {
    let mut w = AsrWorker::new(&config(false));
    let mut s = session();
    let (events, news) = w.final_reply(
        Ok(outcome("Thank you for watching!", 100)),
        Speaker::Unknown,
        single(0.1),
        0,
        0,
        1_000,
        &mut s,
    );
    assert!(!news, "doubtful text is no news for the minutes");
    assert_eq!(s.segments[0].suspect.as_deref(), Some("疑似模型幻听短语"));
    assert_eq!(s.segments[0].end_ms, 1);
    assert_eq!(events.len(), 2);
    assert_eq!(s.transcript_between_trusted(0, 10_000), "");
    let (req, _) = w.begin(complete(2), false).unwrap();
    assert_eq!(req.prompt, None);
    // nothing at all is shown as well
    w.final_reply(Ok(outcome("", 100)), Speaker::Unknown, single(0.0), 0, 10, 1_000, &mut s);
    assert_eq!(s.segments[1].suspect.as_deref(), Some("识别服务没有返回有效内容"));
}

#[test]
fn a_failed_request_is_reported_and_nothing_else() {
    let mut w = AsrWorker::new(&config(false));
    let mut s = session();
    let (events, news) = w.final_reply(
        Err(AppError::asr("坏了")),
        Speaker::Me,
        single(0.0),
        0,
        900,
        1_000,
        &mut s,
    );
    assert!(!news && s.segments.is_empty());
    match &events[0] {
        AppEvent::Error(e) => {
            assert_eq!(e.scope, "asr");
            assert!(e.message.ends_with("坏了"));
        }
        _ => unreachable!(),
    }
    match &events[1] {
        AppEvent::Partial(p) => assert_eq!(p.start_ms, 900),
        _ => unreachable!(),
    }
}

#[test]
fn figures_are_medians_of_the_last_ten() {
    let mut w = AsrWorker::new(&config(false));
    let mut s = session();
    for i in 0..15u64 {
        let rtf = if i < 5 { single(0.0) } else { single(i as f32) };
        w.final_reply(Ok(outcome("内容", 100 * i)), Speaker::Me, rtf, 0, 10, 5_000, &mut s);
    }
    assert_eq!(s.stats.latency_ms, 1_000);
    assert_eq!(float(s.stats.rtf), 10.0);
    assert_eq!(s.stats.segments, 15);
}

#[test]
fn the_speaker_is_the_only_source_or_the_louder_one() {
    fn measure(frames: &[(SourceKind, Single)]) -> (Double, Double) {
        let ratio: f64 = if frames.is_empty() { 0.5 } else { 0.1 };
        (Double { bits: 1.0f64.to_bits() }, Double { bits: ratio.to_bits() })
    }
    let mut share = SourceShare::empty();
    let w = AsrWorker::new(&config(false));
    assert_eq!(w.speaker(&share, &measure), Speaker::Me);
    let two = AsrWorker::new(&AsrWorkerConfig { single_source: None, ..config(false) });
    assert_eq!(two.speaker(&share, &measure), Speaker::Mixed);
    share.frames.push((SourceKind::Loopback, single(0.5)));
    assert_eq!(two.speaker(&share, &measure), Speaker::Others);
}
