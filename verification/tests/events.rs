//! Events.

use meeting_hear::events::{
    ai_status_event, cleared_event, error_event, event, state_event, AiStateKind, AppEvent,
    AsrStateKind,
};

#[test]
fn event_names_match_frontend_contract() {
    // 这些字符串必须与 src/lib/contract.ts 的 EV 完全一致
    assert_eq!(event::SEGMENT, "asr:segment");
    assert_eq!(event::PARTIAL, "asr:partial");
    assert_eq!(event::STATE, "asr:state");
    assert_eq!(event::LEVEL, "asr:level");
    assert_eq!(event::AI_STATUS, "ai:status");
    assert_eq!(event::SUMMARY, "ai:summary");
    assert_eq!(event::SESSION_UPDATED, "session:updated");
    assert_eq!(event::ERROR, "app:error");
}

#[test]
fn events_are_sent_under_their_names() {
    let e = state_event("s1", AsrStateKind::Speech, None);
    assert_eq!(e.name(), "asr:state");
    match e {
        AppEvent::State(s) => {
            assert_eq!(s.session_id, "s1");
            assert_eq!(s.state, AsrStateKind::Speech);
            assert!(s.message.is_none());
        }
        _ => unreachable!(),
    }
    let e = cleared_event("s1", 700);
    assert_eq!(e.name(), event::PARTIAL);
    match e {
        AppEvent::Partial(p) => {
            assert_eq!((p.committed.as_str(), p.tentative.as_str()), ("", ""));
            assert_eq!(p.start_ms, 700);
        }
        _ => unreachable!(),
    }
    assert_eq!(error_event("asr", "x").name(), event::ERROR);
    assert_eq!(
        ai_status_event("s1", AiStateKind::Idle, None, 2).name(),
        event::AI_STATUS
    );
}
