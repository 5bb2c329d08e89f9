//! Rolling minutes: when to ask for an update, what to ask, and what becomes of
//! the answer.

use vstd::prelude::*;
use vstd::string::*;
use crate::ai::client::ChatMessage;
use crate::ai::client::ChatOutcome;
use crate::ai::client::MessageView;
use crate::ai::client::TokenUsage;
use crate::ai::client::message_views;
use crate::ai::prompts::KnownView;
use crate::ai::prompts::SectionLine;
use crate::ai::prompts::SectionLineView;
use crate::ai::prompts::SummaryMode;
use crate::ai::prompts::build_incremental_messages;
use crate::ai::prompts::law_request_carries_the_news;
use crate::ai::prompts::law_request_length;
use crate::ai::prompts::mode_of;
use crate::ai::prompts::section_line_views;
use crate::ai::prompts::update_request;
use crate::ai::summarizer::PatchView;
use crate::ai::summarizer::SectionView;
use crate::ai::summarizer::SummaryPatch;
use crate::ai::summarizer::SummarySection;
use crate::ai::summarizer::SummaryView;
use crate::ai::summarizer::apply_patch_at;
use crate::ai::summarizer::items_text;
use crate::ai::summarizer::patched;
use crate::ai::summarizer::section_views;
use crate::error::AppError;
use crate::error::AppResult;
use crate::error::ErrorView;
use crate::events::AiStateKind;
use crate::events::AppEvent;
use crate::events::EventView;
use crate::events::ai_status_event;
use crate::events::event_views;
use crate::events::summary_event;
use crate::session::SegmentView;
use crate::session::Session;
use crate::session::SessionView;
use crate::session::in_window;
use crate::session::law_transcript_is_the_lines_of_its_segments;
use crate::session::spoken_line;
use crate::session::transcript;
use crate::settings::AiProvider;
use crate::settings::AiSettings;
use crate::settings::AiSettingsView;
use crate::text::blank;
use crate::text::copy_texts;
use crate::text::has_text;
use crate::text::is_blank;
use crate::text::same;
use crate::util::law_middle_truncation_is_bounded;
use crate::util::middle_truncated;
use crate::util::truncate_middle;

verus! {

// ---------------------------------------------------------------------------
// When
// ---------------------------------------------------------------------------

/// What was said since the minutes were last updated, but for doubtful segments.
pub open spec fn news(s: SessionView) -> Seq<char> {
    transcript(s.segments, s.summary.covered_until as int, s.last_end() as int, false)
}

/// Whether an update is due: one that was asked for at once; the automatic ones
/// where they are switched on, after the interval, and if enough was said.
pub open spec fn update_due(
    settings: AiSettingsView,
    s: SessionView,
    asked: bool,
    idle_ms: int,
) -> bool {
    &&& settings.ready()
    &&& asked || {
        &&& settings.auto_summary
        &&& idle_ms >= settings.interval_secs * 1000
        &&& news(s).len() >= settings.min_new_chars
        &&& news(s).len() >= 1
    }
}

/// Says whether to ask for an update now. `asked` means that someone asked for
/// it; `idle_ms` is the time since the last one.
pub fn should_summarize(
    settings: &AiSettings,
    session: &Session,
    asked: bool,
    idle_ms: u64,
) -> (r: bool)
    ensures
        r == update_due(settings@, session@, asked, idle_ms as int),
{
    if !settings.ready() {
        return false;
    }
    if asked {
        return true;
    }
    if !settings.auto_summary {
        return false;
    }
    if idle_ms < settings.interval_secs as u64 * 1000 {
        return false;
    }
    let text = session.transcript_between_trusted(
        session.summary.covered_until_ms,
        session.last_segment_end_ms(),
    );
    let chars: usize = text.as_str().unicode_len();
    chars >= 1 && chars as u64 >= settings.min_new_chars as u64
}

// ---------------------------------------------------------------------------
// What
// ---------------------------------------------------------------------------

pub open spec fn section_line(s: SectionView) -> SectionLineView {
    SectionLineView { title: s.title, points: s.points }
}

pub open spec fn section_lines_of(sections: Seq<SectionView>) -> Seq<SectionLineView> {
    sections.map_values(|s: SectionView| section_line(s))
}

fn to_lines(sections: &Vec<SummarySection>) -> (r: Vec<SectionLine>)
    ensures
        section_line_views(r@) == section_lines_of(section_views(sections@)),
{
    let ghost all = section_lines_of(section_views(sections@));
    let n: usize = sections.len();
    let mut out: Vec<SectionLine> = Vec::new();
    let mut i: usize = 0;
    while i < n
        invariant
            i <= n == sections@.len(),
            out@.len() == i,
            all == section_lines_of(section_views(sections@)),
            section_line_views(out@) == all.take(i as int),
        decreases n - i,
    {
        let ghost before = out@;
        out.push(
            SectionLine {
                title: sections[i].title.clone(),
                points: copy_texts(&sections[i].points),
            },
        );
        proof {
            assert(section_line_views(out@) =~= section_line_views(before).push(out@[i as int]@));
            assert(all[i as int] == section_line(sections@[i as int]@));
            assert(all.take(i + 1) =~= all.take(i as int).push(all[i as int]));
        }
        i += 1;
    }
    proof {
        assert(all.take(n as int) =~= all);
    }
    out
}

/// The minutes as the model is shown them.
pub open spec fn known(s: SummaryView) -> KnownView {
    KnownView {
        overview: s.overview,
        sections: section_lines_of(s.sections),
        summary: s.summary,
        key_points: s.key_points,
        decisions: s.decisions,
        action_items: items_text(s.action_items),
        topics: s.topics,
    }
}

/// What was said lately, but for doubtful segments.
pub open spec fn recent(settings: AiSettingsView, s: SessionView, now: int) -> Seq<char> {
    transcript(
        s.segments,
        s.recent_from(s.duration_at(now), settings.live_window_secs as int),
        s.last_end() as int,
        false,
    )
}

/// The request for an update of a session's minutes: what is known, what was
/// said lately and what is new.
pub open spec fn update_messages(settings: AiSettingsView, s: SessionView, now: int) -> Seq<
    MessageView,
> {
    let mode = mode_of(settings.summary_mode);
    let time = s.duration_at(now);
    let max = settings.max_context_chars as int;
    seq![
        MessageView { role: "system"@, content: mode.system_text() },
        MessageView {
            role: "user"@,
            content: update_request(
                mode,
                s.title,
                known(s.summary),
                middle_truncated(news(s), max),
                middle_truncated(recent(settings, s, now), max / 2),
                s.summary.covered_until as int,
                s.last_end() as int,
                time,
                settings.live_window_secs as nat,
            ),
        },
    ]
}

/// An update that is under way.
#[derive(Debug)]
pub struct SummaryRound {
    pub provider: AiProvider,
    pub messages: Vec<ChatMessage>,
    /// Where the minutes will reach.
    pub covered_to: i64,
}

/// Whether there is something to update the minutes with.
pub open spec fn has_news(s: SessionView) -> bool {
    s.last_end() > s.summary.covered_until && !blank(news(s))
}

/// Prepares an update of the minutes at time `now`. Without news nothing is
/// asked, unless it is `forced`.
pub fn prepare_summary(
    settings: &AiSettings,
    session: &Session,
    now: i64,
    forced: bool,
) -> (r: AppResult<Option<SummaryRound>>)
    requires
        session@.resumed_at matches Some(t) ==> now - t <= i64::MAX,
        session@.duration_at(now as int) <= i64::MAX,
    ensures
        match settings@.active_index(0) {
            None => r matches Err(e) && e@ == ErrorView::Ai("尚未配置 AI 服务商"@),
            Some(i) => if !forced && !has_news(session@) {
                r matches Ok(None)
            } else {
                r matches Ok(Some(round)) && {
                    &&& round.provider@ == settings@.providers[i]
                    &&& message_views(round.messages@) == update_messages(
                        settings@,
                        session@,
                        now as int,
                    )
                    &&& round.covered_to == session@.last_end()
                }
            },
        },
{
    let provider = match settings.active() {
        Some(p) => p.duplicate(),
        None => {
            return Err(AppError::ai("尚未配置 AI 服务商"));
        },
    };
    let last: i64 = session.last_segment_end_ms();
    let from: i64 = session.summary.covered_until_ms;
    if last <= from && !forced {
        return Ok(None);
    }
    let text = session.transcript_between_trusted(from, last);
    if is_blank(text.as_str()) && !forced {
        return Ok(None);
    }
    let time: i64 = session.live_duration_ms(now);
    let live = session.recent_transcript(time, settings.live_window_secs);
    let max: usize = settings.max_context_chars as usize;
    let s = &session.summary;
    let messages = build_incremental_messages(
        SummaryMode::parse(settings.summary_mode.as_str()),
        session.title.as_str(),
        s.overview.as_str(),
        &to_lines(&s.sections),
        s.summary.as_str(),
        &s.key_points,
        &s.decisions,
        s.action_items_text().as_str(),
        &s.topics,
        truncate_middle(text.as_str(), max).as_str(),
        truncate_middle(live.as_str(), max / 2).as_str(),
        from,
        last,
        time,
        settings.live_window_secs,
    );
    Ok(Some(SummaryRound { provider, messages, covered_to: last }))
}

/// The event while the model works.
pub fn thinking_event(session: &Session) -> (r: AppEvent)
    requires
        session@.summary.calls < u32::MAX,
    ensures
        r@ == (EventView::AiStatus {
            session: session@.id,
            ai: AiStateKind::Thinking,
            message: None,
            calls: (session@.summary.calls + 1) as u32,
        }),
{
    ai_status_event(
        session.id.as_str(),
        AiStateKind::Thinking,
        None,
        session.summary.calls + 1,
    )
}

// ---------------------------------------------------------------------------
// What becomes of the answer
// ---------------------------------------------------------------------------

/// The name of the model that answered.
pub open spec fn answering_model(answered: Seq<char>, asked: Seq<char>) -> Seq<char> {
    if answered.len() == 0 {
        asked
    } else {
        answered
    }
}

/// The session after an update.
pub open spec fn summarized(
    s: SessionView,
    patch: PatchView,
    model: Seq<char>,
    covered_to: i64,
    usage: TokenUsage,
    now: i64,
) -> SessionView {
    SessionView { summary: patched(s.summary, patch, model, covered_to, usage, now), ..s }
}

/// The session after an update that failed: the minutes say why, and keep
/// everything else, above all how far they reach. The next update asks for the
/// same text again.
pub open spec fn not_summarized(s: SessionView, why: Seq<char>) -> SessionView {
    SessionView { summary: SummaryView { error: Some(why), ..s.summary }, ..s }
}

/// Takes the outcome of an update: the answer and the patch in it, or what went
/// wrong with the request or with the answer.
pub fn finish_summary(
    session: &mut Session,
    round: &SummaryRound,
    result: AppResult<(SummaryPatch, ChatOutcome)>,
    now: i64,
) -> (r: (Vec<AppEvent>, AppResult<bool>))
    ensures
        match result {
            Ok(x) => {
                &&& final(session)@ == summarized(
                    old(session)@,
                    x.0@,
                    answering_model(x.1.model@, round.provider@.model),
                    round.covered_to,
                    x.1.usage,
                    now,
                )
                &&& r.1 matches Ok(true)
                &&& event_views(r.0@) == seq![
                    EventView::AiStatus {
                        session: old(session)@.id,
                        ai: AiStateKind::Idle,
                        message: None,
                        calls: final(session)@.summary.calls,
                    },
                    EventView::Summary {
                        session: old(session)@.id,
                        summary: final(session)@.summary,
                    },
                ]
            },
            Err(e) => {
                &&& final(session)@ == not_summarized(old(session)@, e@.message())
                &&& r.1 matches Err(f) && f@ == e@
                &&& event_views(r.0@) == seq![
                    EventView::AiStatus {
                        session: old(session)@.id,
                        ai: AiStateKind::Error,
                        message: Some(e@.message()),
                        calls: old(session)@.summary.calls,
                    },
                    EventView::Summary {
                        session: old(session)@.id,
                        summary: final(session)@.summary,
                    },
                ]
            },
        },
{
    let mut events: Vec<AppEvent> = Vec::new();
    match result {
        Ok((patch, outcome)) => {
            let model = if outcome.model.as_str().unicode_len() == 0 {
                round.provider.model.clone()
            } else {
                outcome.model.clone()
            };
            apply_patch_at(
                &mut session.summary,
                patch,
                model.as_str(),
                round.covered_to,
                &outcome.usage,
                now,
            );
            events.push(
                ai_status_event(
                    session.id.as_str(),
                    AiStateKind::Idle,
                    None,
                    session.summary.calls,
                ),
            );
            events.push(summary_event(session.id.as_str(), &session.summary));
            proof {
                assert(event_views(events@) =~= seq![events@[0]@, events@[1]@]);
            }
            (events, Ok(true))
        },
        Err(e) => {
            let why = e.message();
            session.summary.set_error(why.as_str());
            let calls: u32 = session.summary.calls;
            events.push(
                ai_status_event(session.id.as_str(), AiStateKind::Error, Some(why), calls),
            );
            events.push(summary_event(session.id.as_str(), &session.summary));
            proof {
                assert(event_views(events@) =~= seq![events@[0]@, events@[1]@]);
            }
            (events, Err(e))
        },
    }
}

// ---------------------------------------------------------------------------
// Laws
// ---------------------------------------------------------------------------

/// An update that failed loses nothing: the next one has the same news, and
/// every part of the minutes is as it was.
pub proof fn law_failed_update_is_repeated(s: SessionView, why: Seq<char>)
    ensures
        news(not_summarized(s, why)) == news(s),
        has_news(not_summarized(s, why)) == has_news(s),
        known(not_summarized(s, why).summary) == known(s.summary),
        not_summarized(s, why).summary.covered_until == s.summary.covered_until,
{
}

/// After an update has covered all that was said, there is no news until more
/// is said.
pub proof fn law_update_uses_up_the_news(
    s: SessionView,
    patch: PatchView,
    model: Seq<char>,
    usage: TokenUsage,
    now: i64,
)
    ensures
        !has_news(summarized(s, patch, model, s.last_end(), usage, now)),
{
}

/// What a request costs does not grow with the meeting: however much was said,
/// it is at most half as long again as the limit, plus what it would be without
/// any transcript.
pub proof fn law_requests_do_not_grow_with_the_meeting(
    settings: AiSettingsView,
    s: SessionView,
    now: int,
)
    requires
        news(s).len() <= u64::MAX,
        recent(settings, s, now).len() <= u64::MAX,
    ensures
        update_messages(settings, s, now)[1].content.len() <= update_request(
            mode_of(settings.summary_mode),
            s.title,
            known(s.summary),
            Seq::empty(),
            Seq::empty(),
            s.summary.covered_until as int,
            s.last_end() as int,
            s.duration_at(now),
            settings.live_window_secs as nat,
        ).len() + settings.max_context_chars + settings.max_context_chars / 2 + 120,
{
    let max = settings.max_context_chars as int;
    let new_text = middle_truncated(news(s), max);
    let live_text = middle_truncated(recent(settings, s, now), max / 2);
    law_middle_truncation_is_bounded(news(s), max);
    law_middle_truncation_is_bounded(recent(settings, s, now), max / 2);
    law_request_length(
        mode_of(settings.summary_mode),
        s.title,
        known(s.summary),
        new_text,
        live_text,
        s.summary.covered_until as int,
        s.last_end() as int,
        s.duration_at(now),
        settings.live_window_secs as nat,
    );
}

/// A session that has no trusted segment beyond the minutes is never sent.
pub proof fn law_doubtful_news_are_no_news(s: SessionView)
    requires
        forall|i: int|
            0 <= i < s.segments.len() && in_window(
                #[trigger] s.segments[i],
                s.summary.covered_until as int,
                s.last_end() as int,
            ) ==> s.segments[i].suspect is Some,
    ensures
        !has_news(s),
{
    lemma_no_lines(s, s.segments);
}

proof fn lemma_no_lines(s: SessionView, part: Seq<crate::session::SegmentView>)
    requires
        forall|i: int|
            0 <= i < part.len() && in_window(
                #[trigger] part[i],
                s.summary.covered_until as int,
                s.last_end() as int,
            ) ==> part[i].suspect is Some,
    ensures
        transcript(part, s.summary.covered_until as int, s.last_end() as int, false) =~= Seq::<
            char,
        >::empty(),
    decreases part.len(),
{
    if part.len() > 0 {
        let rest = part.drop_last();
        assert forall|i: int|
            0 <= i < rest.len() && in_window(
                #[trigger] rest[i],
                s.summary.covered_until as int,
                s.last_end() as int,
            ) implies rest[i].suspect is Some by {
            assert(rest[i] == part[i]);
        }
        lemma_no_lines(s, rest);
        assert(part.last() == part[part.len() - 1]);
    }
}

/// What is new is every trusted segment from where the minutes reach up to the end,
/// and what is known is every part of the minutes under its own name.
pub proof fn law_news_are_what_the_minutes_lack(s: SessionView)
    ensures
        ({
            let from = s.summary.covered_until as int;
            let to = s.last_end() as int;
            let doubtful = false;
            news(s) == s.segments.filter(
                |x: SegmentView| x.end > from && x.start <= to && (doubtful || x.suspect is None),
            ).map_values(|x: SegmentView| spoken_line(x)).flatten_alt()
        }),
        known(s.summary).overview == s.summary.overview,
        known(s.summary).summary == s.summary.summary,
        known(s.summary).key_points == s.summary.key_points,
        known(s.summary).decisions == s.summary.decisions,
        known(s.summary).topics == s.summary.topics,
        known(s.summary).sections.len() == s.summary.sections.len(),
        forall|i: int|
            0 <= i < s.summary.sections.len() ==> (#[trigger] known(s.summary).sections[i]).title
                == s.summary.sections[i].title && known(s.summary).sections[i].points
                == s.summary.sections[i].points,
        known(s.summary).action_items == items_text(s.summary.action_items),
{
    law_transcript_is_the_lines_of_its_segments(
        s.segments,
        s.summary.covered_until as int,
        s.last_end() as int,
        false,
    );
}

/// A request for an update is made of a system message and one of the user. The user's
/// holds the news from where the minutes reach, what was said lately, and the minutes
/// so far; where all of it fits, word for word.
pub proof fn law_update_request_is_about_this_session(
    settings: AiSettingsView,
    s: SessionView,
    now: int,
)
    ensures
        ({
            let m = update_messages(settings, s, now);
            &&& m.len() == 2 && m[0].role == "system"@ && m[1].role == "user"@
            &&& m[0].content == mode_of(settings.summary_mode).system_text()
            &&& m[1].content == update_request(
                mode_of(settings.summary_mode),
                s.title,
                known(s.summary),
                middle_truncated(news(s), settings.max_context_chars as int),
                middle_truncated(
                    recent(settings, s, now),
                    settings.max_context_chars as int / 2,
                ),
                s.summary.covered_until as int,
                s.last_end() as int,
                s.duration_at(now),
                settings.live_window_secs as nat,
            )
            &&& has_text(m[1].content, s.title)
            &&& news(s).len() <= settings.max_context_chars ==> has_text(m[1].content, news(s))
            &&& recent(settings, s, now).len() <= settings.max_context_chars / 2 ==> has_text(
                m[1].content,
                recent(settings, s, now),
            )
        }),
{
    law_request_carries_the_news(
        mode_of(settings.summary_mode),
        s.title,
        known(s.summary),
        middle_truncated(news(s), settings.max_context_chars as int),
        middle_truncated(recent(settings, s, now), settings.max_context_chars as int / 2),
        s.summary.covered_until as int,
        s.last_end() as int,
        s.duration_at(now),
        settings.live_window_secs as nat,
    );
}

/// Updates come when they are asked for; otherwise only where they are switched on,
/// when the interval has passed, and when enough is new.
pub proof fn law_updates_come_when_due(
    settings: AiSettingsView,
    s: SessionView,
    asked: bool,
    idle_ms: int,
)
    ensures
        !settings.ready() ==> !update_due(settings, s, asked, idle_ms),
        settings.ready() && asked ==> update_due(settings, s, asked, idle_ms),
        !asked && !settings.auto_summary ==> !update_due(settings, s, asked, idle_ms),
        !asked && idle_ms < 1000 * settings.interval_secs ==> !update_due(
            settings,
            s,
            asked,
            idle_ms,
        ),
        !asked && news(s).len() < settings.min_new_chars ==> !update_due(
            settings,
            s,
            asked,
            idle_ms,
        ),
        !asked && news(s).len() == 0 ==> !update_due(settings, s, asked, idle_ms),
        settings.ready() && settings.auto_summary && idle_ms >= 1000 * settings.interval_secs
            && news(s).len() >= settings.min_new_chars && news(s).len() > 0 ==> update_due(
            settings,
            s,
            asked,
            idle_ms,
        ),
{
}

/// An update changes the minutes of a session and nothing else of it; one that failed
/// changes what the minutes say went wrong, and nothing else.
pub proof fn law_updates_change_only_the_minutes(
    s: SessionView,
    patch: PatchView,
    model: Seq<char>,
    covered_to: i64,
    usage: TokenUsage,
    now: i64,
    why: Seq<char>,
)
    ensures
        ({
            let r = summarized(s, patch, model, covered_to, usage, now);
            &&& r.summary == patched(s.summary, patch, model, covered_to, usage, now)
            &&& r.segments == s.segments && r.title == s.title && r.id == s.id
            &&& r.status == s.status && r.stats == s.stats && r.report_md == s.report_md
            &&& r.duration == s.duration && r.resumed_at == s.resumed_at && r.next_id == s.next_id
        }),
        ({
            let r = not_summarized(s, why);
            &&& r.summary.error == Some(why)
            &&& r.summary.decisions == s.summary.decisions && r.summary.key_points
                == s.summary.key_points && r.summary.action_items == s.summary.action_items
            &&& r.summary.live == s.summary.live && r.summary.overview == s.summary.overview
            &&& r.summary.summary == s.summary.summary && r.summary.sections == s.summary.sections
            &&& r.summary.topics == s.summary.topics && r.summary.revision == s.summary.revision
            &&& r.summary.covered_until == s.summary.covered_until
            &&& r.segments == s.segments && r.stats == s.stats && r.status == s.status
        }),
        answering_model(model, why) == if model.len() > 0 {
            model
        } else {
            why
        },
{
}

/// What [`prepare_summary`] asks, and whom: the chosen service, about this session, up
/// to its end. Without news it asks nothing unless it has to.
pub proof fn law_updates_ask_the_chosen_service(
    settings: &AiSettings,
    session: &Session,
    now: i64,
    forced: bool,
    r: AppResult<Option<SummaryRound>>,
    i: int,
)
    requires
        call_ensures(prepare_summary, (settings, session, now, forced), r),
        0 <= i < settings.providers@.len(),
        settings@.active_index(0) == Some(i),
    ensures
        !forced && !has_news(session@) ==> (r matches Ok(None)),
        forced || has_news(session@) ==> (r matches Ok(Some(round)) && {
            &&& round.provider.model@ == settings.providers@[i].model@
            &&& round.provider.base_url@ == settings.providers@[i].base_url@
            &&& round.provider.api_key@ == settings.providers@[i].api_key@
            &&& round.covered_to == session@.last_end()
            &&& round.messages@.len() == 2
            &&& round.messages@[0].role@ == "system"@ && round.messages@[1].role@ == "user"@
            &&& has_text(round.messages@[1].content@, session.title@)
            &&& news(session@).len() <= settings.max_context_chars ==> has_text(
                round.messages@[1].content@,
                news(session@),
            )
        }),
{
    assert(settings@.providers[i] == settings.providers@[i]@);
    law_update_request_is_about_this_session(settings@, session@, now as int);
    if forced || has_news(session@) {
        let round = r->Ok_0->0;
        assert(message_views(round.messages@).len() == round.messages@.len());
        assert(message_views(round.messages@)[0] == round.messages@[0]@);
        assert(message_views(round.messages@)[1] == round.messages@[1]@);
        assert(round.provider@.model == round.provider.model@);
    }
}

/// What [`finish_summary`] does with an answer: the minutes take it over, up to where
/// it was asked for, and are shown; what failed is noted and shown, and the minutes
/// still reach as far as before.
pub proof fn law_answers_are_merged_into_the_minutes(
    session: &mut Session,
    round: &SummaryRound,
    result: AppResult<(SummaryPatch, ChatOutcome)>,
    now: i64,
    r: (Vec<AppEvent>, AppResult<bool>),
)
    requires
        call_ensures(finish_summary, (session, round, result, now), r),
    ensures
        result matches Ok(x) ==> {
            &&& final(session)@.summary == patched(
                old(session)@.summary,
                x.0@,
                if x.1.model@.len() > 0 {
                    x.1.model@
                } else {
                    round.provider.model@
                },
                round.covered_to,
                x.1.usage,
                now,
            )
            &&& final(session)@.summary.covered_until >= round.covered_to
            &&& final(session)@.segments == old(session)@.segments
            &&& r.1 is Ok
            &&& r.0@.len() == 2 && r.0@[1]@ == (EventView::Summary {
                session: old(session)@.id,
                summary: final(session)@.summary,
            })
        },
        result matches Err(e) ==> {
            &&& final(session)@.summary.covered_until == old(session)@.summary.covered_until
            &&& final(session)@.summary.decisions == old(session)@.summary.decisions
            &&& final(session)@.summary.error == Some(e@.message())
            &&& final(session)@.segments == old(session)@.segments
            &&& r.1 is Err
        },
{
    assert(event_views(r.0@).len() == r.0@.len());
    if result is Ok {
        assert(event_views(r.0@)[1] == r.0@[1]@);
    }
}

} // verus!
