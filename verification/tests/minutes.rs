//! Rolling minutes of a session.

use meeting_hear::ai::client::{ChatOutcome, TokenUsage};
use meeting_hear::ai::summarizer::SummaryPatch;
use meeting_hear::error::AppError;
use meeting_hear::events::{AiStateKind, AppEvent};
use meeting_hear::pipeline::summary::{
    finish_summary, prepare_summary, should_summarize, thinking_event,
};
use meeting_hear::session::{Session, SessionConfig, SessionStatus, TranscriptSegment};
use meeting_hear::settings::AiSettings;

fn settings() -> AiSettings {
    AiSettings { min_new_chars: 5, ..Default::default() }
}

fn add(s: &mut Session, text: &str, start_ms: i64, end_ms: i64, suspect: bool) {
    s.push_segment(TranscriptSegment {
        id: 0,
        text: text.into(),
        start_ms,
        end_ms,
        confidence: None,
        suspect: if suspect { Some("疑似退化重复".into()) } else { None },
    });
}

fn session() -> Session {
    let mut s = Session::new("产品周会".into(), SessionConfig::default());
    s.status = SessionStatus::Paused;
    s.duration_ms = 60_000;
    add(&mut s, "我们先过一下三季度的增长情况。", 0, 3_000, false);
    add(&mut s, "哈哈哈哈哈哈哈哈", 3_000, 5_000, true);
    s
}

fn outcome(model: &str) -> ChatOutcome {
    ChatOutcome {
        content: "{}".into(),
        model: model.into(),
        usage: TokenUsage { prompt_tokens: 7, completion_tokens: 3, total_tokens: 10 },
        latency_ms: 1,
        json_degraded: false,
    }
}

#[test]
fn updates_come_after_the_interval_and_with_enough_news() {
    let s = session();
    assert!(should_summarize(&settings(), &s, false, 20_000));
    assert!(!should_summarize(&settings(), &s, false, 19_999));
    assert!(!should_summarize(&AiSettings { min_new_chars: 500, ..settings() }, &s, false, 60_000));
    assert!(!should_summarize(&AiSettings { auto_summary: false, ..settings() }, &s, false, 60_000));
    // one that was asked for comes at once
    assert!(should_summarize(&AiSettings { auto_summary: false, ..settings() }, &s, true, 0));
    assert!(!should_summarize(&AiSettings { enabled: false, ..settings() }, &s, true, 60_000));
    // doubtful text is no news
    let mut doubtful = Session::new("x".into(), SessionConfig::default());
    add(&mut doubtful, "哈哈哈哈哈哈哈哈", 0, 2_000, true);
    let eager = AiSettings { min_new_chars: 0, ..settings() };
    assert!(!should_summarize(&eager, &doubtful, false, 60_000));
}

#[test]
fn a_request_carries_what_is_new() {
    let s = session();
    let round = prepare_summary(&settings(), &s, 0, false).unwrap().unwrap();
    assert_eq!(round.covered_to, 5_000);
    assert_eq!(round.messages.len(), 2);
    let user = &round.messages[1].content;
    assert!(user.contains("产品周会") && user.contains("三季度的增长情况"));
    assert!(!user.contains("哈哈哈哈"));
    assert!(user.contains("00:00:00 → 00:00:05"));
    assert!(user.contains("【当前时间】00:01:00"));
    assert_eq!(round.provider.id, "deepseek");
}

#[test]
fn without_news_nothing_is_asked() {
    let mut s = session();
    s.summary.covered_until_ms = 5_000;
    assert!(prepare_summary(&settings(), &s, 0, false).unwrap().is_none());
    assert!(prepare_summary(&settings(), &s, 0, true).unwrap().is_some());
    s.summary.covered_until_ms = 3_000;
    assert!(prepare_summary(&settings(), &s, 0, false).unwrap().is_none());
    let none = AiSettings { providers: vec![], ..settings() };
    assert_eq!(
        prepare_summary(&none, &s, 0, true).unwrap_err().message(),
        "AI 接口错误：尚未配置 AI 服务商"
    );
}

#[test]
fn long_news_are_cut_to_the_limit() {
    let mut s = session();
    for i in 0..200 {
        add(&mut s, &"很长的一段话".repeat(20), 5_000 + i * 100, 5_100 + i * 100, false);
    }
    let limit = AiSettings { max_context_chars: 1_000, ..settings() };
    let round = prepare_summary(&limit, &s, 0, false).unwrap().unwrap();
    let user = &round.messages[1].content;
    assert!(user.contains("中间省略"));
    assert!(user.chars().count() < 1_500 + 120 + 1_500, "{}", user.chars().count());
}

#[test]
fn an_answer_moves_the_minutes_on() {
    let mut s = session();
    let round = prepare_summary(&settings(), &s, 0, false).unwrap().unwrap();
    match thinking_event(&s) {
        AppEvent::AiStatus(e) => assert_eq!((e.state, e.calls), (AiStateKind::Thinking, 1)),
        _ => unreachable!(),
    }
    let patch = SummaryPatch { overview: Some("复盘".into()), ..Default::default() };
    let (events, r) = finish_summary(&mut s, &round, Ok((patch, outcome(""))), 99);
    assert!(r.unwrap());
    assert_eq!(s.summary.overview, "复盘");
    assert_eq!(s.summary.covered_until_ms, 5_000);
    assert_eq!(s.summary.model.as_deref(), Some(round.provider.model.as_str()));
    assert_eq!((s.summary.updated_at, s.summary.prompt_tokens), (99, 7));
    match &events[0] {
        AppEvent::AiStatus(e) => assert_eq!((e.state, e.calls), (AiStateKind::Idle, 1)),
        _ => unreachable!(),
    }
    match &events[1] {
        AppEvent::Summary(e) => assert_eq!(e.summary.overview, "复盘"),
        _ => unreachable!(),
    }
    // nothing is left to ask
    assert!(prepare_summary(&settings(), &s, 0, false).unwrap().is_none());
}

#[test]
fn a_failure_keeps_everything_for_the_next_time() {
    let mut s = session();
    let round = prepare_summary(&settings(), &s, 0, false).unwrap().unwrap();
    let (events, r) = finish_summary(&mut s, &round, Err(AppError::ai("坏了")), 99);
    assert_eq!(r.unwrap_err().message(), "AI 接口错误：坏了");
    assert_eq!(s.summary.covered_until_ms, 0);
    assert_eq!(s.summary.error.as_deref(), Some("AI 接口错误：坏了"));
    match &events[0] {
        AppEvent::AiStatus(e) => {
            assert_eq!(e.state, AiStateKind::Error);
            assert_eq!(e.message.as_deref(), Some("AI 接口错误：坏了"));
        }
        _ => unreachable!(),
    }
    let again = prepare_summary(&settings(), &s, 0, false).unwrap().unwrap();
    assert_eq!(again.messages[1].content, round.messages[1].content);
}
