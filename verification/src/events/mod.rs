//! What the user interface is told.

use vstd::prelude::*;
use crate::ai::summarizer::SummaryState;
use crate::ai::summarizer::SummaryView;
use crate::audio::capture::SourceKind;
use crate::num::Single;
use crate::session::SegmentView;
use crate::session::SessionInfo;
use crate::session::SessionStats;
use crate::session::Speaker;
use crate::session::TranscriptSegment;
use crate::text::opt_view;

pub mod event;

verus! {

#[derive(Clone, Copy, Debug, PartialEq, Eq, Structural)]
pub enum AsrStateKind {
    Idle,
    Starting,
    Listening,
    Speech,
    Paused,
    Stopping,
    Error,
}

#[derive(Debug)]
pub struct AsrStateEvent {
    pub session_id: String,
    pub state: AsrStateKind,
    pub message: Option<String>,
}

#[derive(Debug)]
pub struct AsrSegmentEvent {
    pub session_id: String,
    pub segment: TranscriptSegment,
    /// Whose voice it is.
    pub speaker: Speaker,
}

#[derive(Debug)]
pub struct AsrPartialEvent {
    pub session_id: String,
    /// What is settled.
    pub committed: String,
    /// What may still change.
    pub tentative: String,
    pub start_ms: i64,
}

#[derive(Debug)]
pub struct LevelItem {
    pub source_id: String,
    pub kind: SourceKind,
    /// Between zero and one, as it is drawn.
    pub peak: Single,
    pub rms: Single,
}

#[derive(Debug)]
pub struct AsrLevelEvent {
    pub session_id: String,
    pub levels: Vec<LevelItem>,
    pub stats: SessionStats,
    pub duration_ms: i64,
}

#[derive(Clone, Copy, Debug, PartialEq, Eq, Structural)]
pub enum AiStateKind {
    Idle,
    Thinking,
    Error,
}

#[derive(Debug)]
pub struct AiStatusEvent {
    pub session_id: String,
    pub state: AiStateKind,
    pub message: Option<String>,
    pub calls: u32,
}

#[derive(Debug)]
pub struct AiSummaryEvent {
    pub session_id: String,
    pub summary: SummaryState,
}

#[derive(Debug)]
pub struct SessionUpdatedEvent {
    pub session: SessionInfo,
}

#[derive(Debug)]
pub struct AppErrorEvent {
    pub scope: String,
    pub message: String,
}

/// Any event.
#[derive(Debug)]
pub enum AppEvent {
    Segment(AsrSegmentEvent),
    Partial(AsrPartialEvent),
    State(AsrStateEvent),
    Level(AsrLevelEvent),
    AiStatus(AiStatusEvent),
    Summary(AiSummaryEvent),
    SessionUpdated(SessionUpdatedEvent),
    Error(AppErrorEvent),
}

/// Model of the events that the pipeline sends.
#[verifier::ext_equal]
pub ghost enum EventView {
    Segment { session: Seq<char>, segment: SegmentView, speaker: Speaker },
    Partial { session: Seq<char>, committed: Seq<char>, tentative: Seq<char>, start: i64 },
    State { session: Seq<char>, state: AsrStateKind, message: Option<Seq<char>> },
    AiStatus { session: Seq<char>, ai: AiStateKind, message: Option<Seq<char>>, calls: u32 },
    Summary { session: Seq<char>, summary: SummaryView },
    Error { scope: Seq<char>, text: Seq<char> },
    Level,
    SessionUpdated,
}

impl View for AppEvent {
    type V = EventView;

    open spec fn view(&self) -> EventView {
        match *self {
            AppEvent::Segment(e) => EventView::Segment {
                session: e.session_id@,
                segment: e.segment@,
                speaker: e.speaker,
            },
            AppEvent::Partial(e) => EventView::Partial {
                session: e.session_id@,
                committed: e.committed@,
                tentative: e.tentative@,
                start: e.start_ms,
            },
            AppEvent::State(e) => EventView::State {
                session: e.session_id@,
                state: e.state,
                message: opt_view(e.message),
            },
            AppEvent::Level(_) => EventView::Level,
            AppEvent::AiStatus(e) => EventView::AiStatus {
                session: e.session_id@,
                ai: e.state,
                message: opt_view(e.message),
                calls: e.calls,
            },
            AppEvent::Summary(e) => EventView::Summary {
                session: e.session_id@,
                summary: e.summary@,
            },
            AppEvent::SessionUpdated(_) => EventView::SessionUpdated,
            AppEvent::Error(e) => EventView::Error { scope: e.scope@, text: e.message@ },
        }
    }
}

pub open spec fn event_views(v: Seq<AppEvent>) -> Seq<EventView> {
    v.map_values(|e: AppEvent| e@)
}

impl AppEvent {
    /// The name under which the event is sent.
    pub fn name(&self) -> (r: &'static str)
        ensures
            r@ == match *self {
                AppEvent::Segment(_) => event::SEGMENT@,
                AppEvent::Partial(_) => event::PARTIAL@,
                AppEvent::State(_) => event::STATE@,
                AppEvent::Level(_) => event::LEVEL@,
                AppEvent::AiStatus(_) => event::AI_STATUS@,
                AppEvent::Summary(_) => event::SUMMARY@,
                AppEvent::SessionUpdated(_) => event::SESSION_UPDATED@,
                AppEvent::Error(_) => event::ERROR@,
            },
    {
        match self {
            AppEvent::Segment(_) => event::SEGMENT,
            AppEvent::Partial(_) => event::PARTIAL,
            AppEvent::State(_) => event::STATE,
            AppEvent::Level(_) => event::LEVEL,
            AppEvent::AiStatus(_) => event::AI_STATUS,
            AppEvent::Summary(_) => event::SUMMARY,
            AppEvent::SessionUpdated(_) => event::SESSION_UPDATED,
            AppEvent::Error(_) => event::ERROR,
        }
    }
}

/// The event for a change of state.
pub fn state_event(session_id: &str, state: AsrStateKind, message: Option<String>) -> (r: AppEvent)
    ensures
        r@ == (EventView::State { session: session_id@, state, message: opt_view(message) }),
{
    AppEvent::State(AsrStateEvent { session_id: session_id.to_owned(), state, message })
}

/// The event that takes away what was shown of an utterance so far.
pub fn cleared_event(session_id: &str, at_ms: i64) -> (r: AppEvent)
    ensures
        r@ == (EventView::Partial {
            session: session_id@,
            committed: Seq::empty(),
            tentative: Seq::empty(),
            start: at_ms,
        }),
{
    AppEvent::Partial(
        AsrPartialEvent {
            session_id: session_id.to_owned(),
            committed: String::new(),
            tentative: String::new(),
            start_ms: at_ms,
        },
    )
}

/// The event for what the language model does.
pub fn ai_status_event(
    session_id: &str,
    state: AiStateKind,
    message: Option<String>,
    calls: u32,
) -> (r: AppEvent)
    ensures
        r@ == (EventView::AiStatus {
            session: session_id@,
            ai: state,
            message: opt_view(message),
            calls,
        }),
{
    AppEvent::AiStatus(AiStatusEvent { session_id: session_id.to_owned(), state, message, calls })
}

/// The event with the minutes.
pub fn summary_event(session_id: &str, summary: &SummaryState) -> (r: AppEvent)
    ensures
        r@ == (EventView::Summary { session: session_id@, summary: summary@ }),
{
    AppEvent::Summary(
        AiSummaryEvent { session_id: session_id.to_owned(), summary: summary.duplicate() },
    )
}

/// The event for an error.
pub fn error_event(scope: &str, message: &str) -> (r: AppEvent)
    ensures
        r@ == (EventView::Error { scope: scope@, text: message@ }),
{
    AppEvent::Error(AppErrorEvent { scope: scope.to_owned(), message: message.to_owned() })
}

} // verus!
