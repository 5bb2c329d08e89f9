//! What the user interface can ask for: the decisions behind each command.

use vstd::prelude::*;
use vstd::string::*;
use crate::ai::client::ChatMessage;
use crate::ai::client::MessageView;
use crate::ai::client::message_views;
use crate::ai::prompts::REPORT_SYSTEM;
use crate::ai::prompts::build_report_messages;
use crate::ai::prompts::report_request;
use crate::audio::capture::AudioSourceInfo;
use crate::audio::capture::CaptureConfig;
use crate::audio::capture::SourceInfoView;
use crate::audio::capture::SourceKind;
use crate::audio::capture::default_source_id;
use crate::audio::capture::preferred_source;
use crate::audio::capture::source_views;
use crate::diagnostics::describe_service;
use crate::diagnostics::service_text;
use crate::error::AppError;
use crate::error::AppResult;
use crate::error::ErrorView;
use crate::events::AiStateKind;
use crate::events::AppEvent;
use crate::events::EventView;
use crate::events::ai_status_event;
use crate::session::ConfigView;
use crate::session::ListItemView;
use crate::session::Session;
use crate::session::SessionConfig;
use crate::session::SessionListItem;
use crate::session::SessionStatus;
use crate::session::SessionView;
use crate::session::export::TITLE_STAMP;
use crate::session::export::default_title;
use crate::session::export::utc_text;
use crate::session::list_views;
use crate::session::trusted_transcript;
use crate::settings::AiProvider;
use crate::settings::AiSettings;
use crate::settings::AiSettingsView;
use crate::settings::AsrProvider;
use crate::settings::AsrProviderView;
use crate::settings::AsrSettings;
use crate::settings::AsrSettingsView;
use crate::settings::AudioSettings;
use crate::text::blank;
use crate::text::copy_opt;
use crate::text::decimal;
use crate::text::decimal_of;
use crate::text::is_blank;
use crate::text::opt_view;
use crate::text::same;
use crate::text::starts_with;
use crate::text::trim;
use crate::text::trimmed;
use crate::util::clock;
use crate::util::format_clock;
use crate::util::middle_truncated;
use crate::util::truncate_chars;
use crate::util::truncated;

verus! {

// ---------------------------------------------------------------------------
// Starting a recording
// ---------------------------------------------------------------------------

/// What the user asks for.
#[derive(Debug)]
pub struct StartSessionRequest {
    pub title: Option<String>,
    pub enable_mic: bool,
    pub enable_loopback: bool,
    pub mic_device_id: Option<String>,
    pub loopback_device_id: Option<String>,
    pub model_id: Option<String>,
    pub save_audio: Option<bool>,
}

impl Default for StartSessionRequest {
    fn default() -> (r: StartSessionRequest)
        ensures
            r == (StartSessionRequest {
                title: None,
                enable_mic: true,
                enable_loopback: false,
                mic_device_id: None,
                loopback_device_id: None,
                model_id: None,
                save_audio: None,
            }),
    {
        StartSessionRequest {
            title: None,
            enable_mic: true,
            enable_loopback: false,
            mic_device_id: None,
            loopback_device_id: None,
            model_id: None,
            save_audio: None,
        }
    }
}

/// A choice that says something.
pub open spec fn said(choice: Option<Seq<char>>) -> Option<Seq<char>> {
    match choice {
        Some(s) => if blank(s) {
            None
        } else {
            Some(s)
        },
        None => None,
    }
}

fn copy_said(choice: &Option<String>) -> (r: Option<String>)
    ensures
        opt_view(r) == said(opt_view(*choice)),
{
    match choice {
        Some(s) => if is_blank(s.as_str()) {
            None
        } else {
            Some(s.clone())
        },
        None => None,
    }
}

/// The source to record: as asked for, else as remembered, else the system's
/// choice.
pub open spec fn chosen_source(
    asked: Option<Seq<char>>,
    remembered: Option<Seq<char>>,
    sources: Seq<SourceInfoView>,
    kind: SourceKind,
) -> Option<Seq<char>> {
    if said(asked) is Some {
        said(asked)
    } else if said(remembered) is Some {
        said(remembered)
    } else {
        match preferred_source(sources, kind) {
            Some(i) => Some(sources[i].id),
            None => None,
        }
    }
}

pub const NO_MIC: &'static str = "没有找到可用的麦克风，请在设置里检查音频设备";

pub const NO_LOOPBACK: &'static str =
    "没有找到可用的系统内录设备。Windows 一般开箱可用；Linux 需要 PulseAudio/PipeWire 的 monitor 源；macOS 需要先安装 BlackHole 等虚拟声卡。";

pub open spec fn no_source_text(kind: SourceKind) -> Seq<char> {
    match kind {
        SourceKind::Microphone => NO_MIC@,
        SourceKind::Loopback => NO_LOOPBACK@,
    }
}

/// Chooses the source of a kind, if one is wanted.
pub fn choose_source(
    wanted: bool,
    asked: &Option<String>,
    remembered: &Option<String>,
    sources: &Vec<AudioSourceInfo>,
    kind: SourceKind,
) -> (r: AppResult<Option<String>>)
    ensures
        if !wanted {
            r matches Ok(None)
        } else {
            match chosen_source(
                opt_view(*asked),
                opt_view(*remembered),
                source_views(sources@),
                kind,
            ) {
                Some(id) => r matches Ok(Some(s)) && s@ == id,
                None => r matches Err(e) && e@ == ErrorView::Audio(no_source_text(kind)),
            }
        },
{
    if !wanted {
        return Ok(None);
    }
    if let Some(s) = copy_said(asked) {
        return Ok(Some(s));
    }
    if let Some(s) = copy_said(remembered) {
        return Ok(Some(s));
    }
    match default_source_id(sources, kind) {
        Some(s) => Ok(Some(s)),
        None => Err(
            AppError::audio(
                match kind {
                    SourceKind::Microphone => NO_MIC,
                    SourceKind::Loopback => NO_LOOPBACK,
                },
            ),
        ),
    }
}

/// The label of the first source with an id, from `from` on.
pub open spec fn label_of(sources: Seq<SourceInfoView>, id: Seq<char>, from: int) -> Option<
    Seq<char>,
>
    decreases sources.len() - from,
{
    if from < 0 || from >= sources.len() {
        None
    } else if sources[from].id == id {
        Some(sources[from].label)
    } else {
        label_of(sources, id, from + 1)
    }
}

pub open spec fn label_for(sources: Seq<SourceInfoView>, id: Option<Seq<char>>) -> Option<
    Seq<char>,
> {
    match id {
        Some(id) => label_of(sources, id, 0),
        None => None,
    }
}

fn find_label(sources: &Vec<AudioSourceInfo>, id: &Option<String>) -> (r: Option<String>)
    ensures
        opt_view(r) == label_for(source_views(sources@), opt_view(*id)),
{
    let wanted = match id {
        Some(id) => id.as_str(),
        None => {
            return None;
        },
    };
    let ghost all = source_views(sources@);
    let n: usize = sources.len();
    let mut i: usize = 0;
    while i < n
        invariant
            i <= n == sources@.len(),
            all == source_views(sources@),
            opt_view(*id) == Some(wanted@),
            label_of(all, wanted@, 0) == label_of(all, wanted@, i as int),
        decreases n - i,
    {
        proof {
            assert(all[i as int] == sources@[i as int]@);
        }
        if same(sources[i].id.as_str(), wanted) {
            return Some(sources[i].label.clone());
        }
        i += 1;
    }
    None
}

pub open spec fn model_text(p: AsrProviderView) -> Seq<char> {
    p.name + " · "@ + p.model
}

fn describe_model(p: &AsrProvider) -> (r: String)
    ensures
        r@ == model_text(p@),
{
    let mut s = p.name.clone();
    s.append(" · ");
    s.append(p.model.as_str());
    s
}

pub const NO_ASR: &'static str = "尚未配置语音识别服务，请打开「设置 → 语音识别」";

/// The recognition service in use. `incomplete` is what is said where its
/// settings are not complete.
pub fn usable_provider(asr: &AsrSettings, incomplete: &str) -> (r: AppResult<AsrProvider>)
    ensures
        match asr@.active_index(0) {
            None => r matches Err(e) && e@ == ErrorView::Asr(NO_ASR@),
            Some(i) => if asr@.providers[i].usable() {
                r matches Ok(p) && p@ == asr@.providers[i]
            } else {
                r matches Err(e) && e@ == ErrorView::Asr(incomplete@)
            },
        },
{
    match asr.active() {
        Some(p) => if p.is_usable() {
            Ok(p.duplicate())
        } else {
            Err(AppError::asr(incomplete))
        },
        None => Err(AppError::asr(NO_ASR)),
    }
}

/// The error where a recording is already going on.
pub fn ensure_idle(recording: bool) -> (r: AppResult<()>)
    ensures
        match r {
            Ok(_) => !recording,
            Err(e) => recording && e@ == ErrorView::Session(
                "已有正在进行的录音，请先停止"@,
            ),
        },
{
    if recording {
        Err(AppError::session("已有正在进行的录音，请先停止"))
    } else {
        Ok(())
    }
}

/// The title of a session: what the user wrote, else one made of the time.
pub open spec fn session_title(asked: Option<Seq<char>>, now: i64) -> Seq<char> {
    match said(asked) {
        Some(t) => trimmed(t),
        None => "会议 "@ + match utc_text(now, TITLE_STAMP@) {
            Some(s) => s,
            None => "会议"@,
        },
    }
}

fn make_title(asked: &Option<String>, now: i64) -> (r: String)
    ensures
        r@ == session_title(opt_view(*asked), now),
{
    match copy_said(asked) {
        Some(t) => trim(t.as_str()).to_owned(),
        None => {
            let t = default_title(now, "会议");
            proof {
                reveal_strlit("会议");
                reveal_strlit(" ");
                reveal_strlit("会议 ");
                assert("会议"@ + " "@ =~= "会议 "@);
            }
            t
        },
    }
}

/// How a recording is made.
#[derive(Debug)]
pub struct SessionPlan {
    pub provider: AsrProvider,
    pub config: SessionConfig,
    pub title: String,
    pub capture: CaptureConfig,
    pub save_audio: bool,
}

pub const ASR_INCOMPLETE: &'static str =
    "语音识别服务配置不完整（需要 Base URL 与模型名），请打开「设置 → 语音识别」";

/// The configuration that a session is stored with.
pub open spec fn planned_config(
    p: AsrProviderView,
    mic: Option<Seq<char>>,
    loopback: Option<Seq<char>>,
    sources: Seq<SourceInfoView>,
) -> ConfigView {
    ConfigView {
        model_id: model_text(p),
        enable_mic: mic is Some,
        enable_loopback: loopback is Some,
        mic_label: label_for(sources, mic),
        loopback_label: label_for(sources, loopback),
    }
}

/// The first reason not to record, if there is one.
pub open spec fn start_refused(
    recording: bool,
    mic_missing: bool,
    loopback_missing: bool,
    asr: AsrSettingsView,
) -> Option<ErrorView> {
    if recording {
        Some(ErrorView::Session("已有正在进行的录音，请先停止"@))
    } else if mic_missing {
        Some(ErrorView::Audio(NO_MIC@))
    } else if loopback_missing {
        Some(ErrorView::Audio(NO_LOOPBACK@))
    } else {
        match asr.active_index(0) {
            None => Some(ErrorView::Asr(NO_ASR@)),
            Some(i) => if asr.providers[i].usable() {
                None
            } else {
                Some(ErrorView::Asr(ASR_INCOMPLETE@))
            },
        }
    }
}

/// The source of a kind for a request.
pub open spec fn requested_source(
    req: StartSessionRequest,
    audio: AudioSettings,
    sources: Seq<SourceInfoView>,
    kind: SourceKind,
) -> Option<Seq<char>> {
    match kind {
        SourceKind::Microphone => if req.enable_mic {
            chosen_source(
                opt_view(req.mic_device_id),
                opt_view(audio.mic_device_id),
                sources,
                kind,
            )
        } else {
            None
        },
        SourceKind::Loopback => if req.enable_loopback {
            chosen_source(
                opt_view(req.loopback_device_id),
                opt_view(audio.loopback_device_id),
                sources,
                kind,
            )
        } else {
            None
        },
    }
}

/// Says how to make a recording, or why none can be made. `recording` says
/// whether one is going on already.
pub fn plan_session(
    req: &StartSessionRequest,
    asr: &AsrSettings,
    audio: &AudioSettings,
    sources: &Vec<AudioSourceInfo>,
    recording: bool,
    now: i64,
) -> (r: AppResult<SessionPlan>)
    ensures
        ({
            let all = source_views(sources@);
            let mic = requested_source(*req, *audio, all, SourceKind::Microphone);
            let loopback = requested_source(*req, *audio, all, SourceKind::Loopback);
            match start_refused(
                recording,
                req.enable_mic && mic is None,
                req.enable_loopback && loopback is None,
                asr@,
            ) {
                Some(why) => r matches Err(e) && e@ == why,
                None => r matches Ok(plan) && {
                    &&& plan.provider@ == asr@.providers[asr@.active_index(0)->0]
                    &&& plan.config@ == planned_config(plan.provider@, mic, loopback, all)
                    &&& plan.title@ == session_title(opt_view(req.title), now)
                    &&& opt_view(plan.capture.mic_device_id) == mic
                    &&& opt_view(plan.capture.loopback_device_id) == loopback
                    &&& plan.capture.mic_gain == audio.mic_gain
                    &&& plan.capture.loopback_gain == audio.loopback_gain
                    &&& plan.save_audio == match req.save_audio {
                        Some(b) => b,
                        None => audio.save_audio,
                    }
                },
            }
        }),
{
    if let Err(e) = ensure_idle(recording) {
        return Err(e);
    }
    let mic = match choose_source(
        req.enable_mic,
        &req.mic_device_id,
        &audio.mic_device_id,
        sources,
        SourceKind::Microphone,
    ) {
        Ok(m) => m,
        Err(e) => {
            return Err(e);
        },
    };
    let loopback = match choose_source(
        req.enable_loopback,
        &req.loopback_device_id,
        &audio.loopback_device_id,
        sources,
        SourceKind::Loopback,
    ) {
        Ok(m) => m,
        Err(e) => {
            return Err(e);
        },
    };
    let provider = match usable_provider(asr, ASR_INCOMPLETE) {
        Ok(p) => p,
        Err(e) => {
            return Err(e);
        },
    };
    let config = SessionConfig {
        model_id: describe_model(&provider),
        enable_mic: req.enable_mic,
        enable_loopback: req.enable_loopback,
        mic_label: find_label(sources, &mic),
        loopback_label: find_label(sources, &loopback),
    };
    let save_audio: bool = match req.save_audio {
        Some(b) => b,
        None => audio.save_audio,
    };
    Ok(
        SessionPlan {
            provider,
            config,
            title: make_title(&req.title, now),
            capture: CaptureConfig {
                mic_device_id: mic,
                loopback_device_id: loopback,
                mic_gain: audio.mic_gain,
                loopback_gain: audio.loopback_gain,
            },
            save_audio,
        },
    )
}

/// The name of the file that a session's audio goes to.
pub fn recording_name(session_id: &str) -> (r: String)
    ensures
        r@ == session_id@ + ".wav"@,
{
    let mut s = session_id.to_owned();
    s.append(".wav");
    s
}

/// What is told when a source fails and the recording is stopped for it.
pub fn interrupted_text(why: &str) -> (r: String)
    ensures
        r@ == why@ + "；已自动停止录音，避免继续录到空白内容"@,
{
    let mut s = why.to_owned();
    s.append("；已自动停止录音，避免继续录到空白内容");
    s
}

/// What is told once that recording is stored.
pub fn interrupted_saved_text(segments: usize) -> (r: String)
    ensures
        r@ == "音频采集中断，已停止录音并保存（"@ + decimal(segments as nat) + " 条转写）"@,
{
    let mut s = "音频采集中断，已停止录音并保存（".to_owned();
    s.append(decimal_of(segments as u128).as_str());
    s.append(" 条转写）");
    s
}

// ---------------------------------------------------------------------------
// Pausing
// ---------------------------------------------------------------------------

/// The error where nothing is being recorded.
pub fn ensure_recording(recording: bool) -> (r: AppResult<()>)
    ensures
        match r {
            Ok(_) => recording,
            Err(e) => !recording && e@ == ErrorView::Session("当前没有正在进行的录音"@),
        },
{
    if recording {
        Ok(())
    } else {
        Err(AppError::session("当前没有正在进行的录音"))
    }
}

/// The session after a pause began at `now`.
pub open spec fn paused(s: SessionView, now: int) -> SessionView {
    SessionView {
        status: SessionStatus::Paused,
        duration: match s.resumed_at {
            Some(t) => if now > t {
                (s.duration + (now - t)) as i64
            } else {
                s.duration
            },
            None => s.duration,
        },
        resumed_at: None,
        ..s
    }
}

/// The session after recording went on at `now`.
pub open spec fn resumed(s: SessionView, now: i64) -> SessionView {
    SessionView { status: SessionStatus::Recording, resumed_at: Some(now), ..s }
}

pub fn pause_session(session: &mut Session, now: i64)
    requires
        old(session)@.resumed_at matches Some(t) ==> now - t <= i64::MAX && (now > t ==> old(
            session,
        )@.duration + (now - t) <= i64::MAX),
    ensures
        final(session)@ == paused(old(session)@, now as int),
{
    if let Some(t) = session.resumed_at {
        if now > t {
            session.duration_ms = session.duration_ms + (now - t);
        }
    }
    session.resumed_at = None;
    session.status = SessionStatus::Paused;
}

pub fn resume_session(session: &mut Session, now: i64)
    ensures
        final(session)@ == resumed(old(session)@, now),
{
    session.status = SessionStatus::Recording;
    session.resumed_at = Some(now);
}

/// A pause is not counted: the duration stands still from the pause until
/// recording goes on, and goes on from there.
pub proof fn law_pauses_do_not_count(s: SessionView, stop: i64, start: i64, later: int)
    requires
        s.status == SessionStatus::Recording,
        s.resumed_at matches Some(t) ==> stop > t ==> s.duration + (stop - t) <= i64::MAX,
    ensures
        paused(s, stop as int).duration_at(later) == s.duration_at(stop as int),
        resumed(paused(s, stop as int), start).duration_at(start as int) == s.duration_at(
            stop as int,
        ),
        later >= start ==> resumed(paused(s, stop as int), start).duration_at(later)
            == s.duration_at(stop as int) + (later - start),
{
}

// ---------------------------------------------------------------------------
// Reports
// ---------------------------------------------------------------------------

/// The error where the language model is not set up.
pub fn ensure_ai_ready(ai: &AiSettings) -> (r: AppResult<()>)
    ensures
        match r {
            Ok(_) => ai@.ready(),
            Err(e) => !ai@.ready() && e@ == ErrorView::Ai(
                "请先在设置里配置 AI 接口（Base URL + 模型名 + API Key）"@,
            ),
        },
{
    if ai.ready() {
        Ok(())
    } else {
        Err(AppError::ai("请先在设置里配置 AI 接口（Base URL + 模型名 + API Key）"))
    }
}

/// A report that is under way.
#[derive(Debug)]
pub struct ReportRound {
    pub provider: AiProvider,
    pub messages: Vec<ChatMessage>,
}

/// What the model is told of the meeting.
pub open spec fn meeting_text(s: SessionView) -> Seq<char> {
    "时长 "@ + clock(s.duration as int) + " · 识别模型 "@ + s.config.model_id + " · 共 "@ + decimal(
        s.segments.len(),
    ) + " 段转写"@
}

/// The request for a report on a session.
pub open spec fn report_messages(ai: AiSettingsView, s: SessionView) -> Seq<MessageView> {
    seq![
        MessageView { role: "system"@, content: REPORT_SYSTEM@ },
        MessageView {
            role: "user"@,
            content: report_request(
                s.title,
                meeting_text(s),
                middle_truncated(
                    trimmed(trusted_transcript(s.segments)),
                    usize::MAX as int,
                ),
                ai.max_context_chars * 2,
            ),
        },
    ]
}

/// Prepares a report.
pub fn prepare_report(ai: &AiSettings, session: &Session) -> (r: AppResult<ReportRound>)
    requires
        ai@.max_context_chars * 2 <= usize::MAX,
    ensures
        match ai@.active_index(0) {
            None => r matches Err(e) && e@ == ErrorView::Ai("尚未配置 AI 服务商"@),
            Some(i) => if !ai@.providers[i].usable() {
                r matches Err(e) && e@ == ErrorView::Ai(
                    "AI 接口配置不完整（需要 Base URL 与模型名）"@,
                )
            } else if session@.segments.len() == 0 {
                r matches Err(e) && e@ == ErrorView::Session(
                    "这场会议还没有转写内容，无法生成纪要"@,
                )
            } else {
                r matches Ok(round) && round.provider@ == ai@.providers[i] && message_views(
                    round.messages@,
                ) == report_messages(ai@, session@)
            },
        },
{
    let provider = match ai.active() {
        Some(p) => p.duplicate(),
        None => {
            return Err(AppError::ai("尚未配置 AI 服务商"));
        },
    };
    if !provider.is_usable() {
        return Err(AppError::ai("AI 接口配置不完整（需要 Base URL 与模型名）"));
    }
    proof {
        assert(session@.segments.len() == session.segments@.len());
    }
    if session.segments.len() == 0 {
        return Err(AppError::session("这场会议还没有转写内容，无法生成纪要"));
    }
    let mut meta = "时长 ".to_owned();
    meta.append(format_clock(session.duration_ms).as_str());
    meta.append(" · 识别模型 ");
    meta.append(session.config.model_id.as_str());
    meta.append(" · 共 ");
    meta.append(decimal_of(session.segments.len() as u128).as_str());
    meta.append(" 段转写");
    let messages = build_report_messages(
        session.title.as_str(),
        meta.as_str(),
        session.full_transcript(usize::MAX).as_str(),
        ai.max_context_chars as usize * 2,
    );
    Ok(ReportRound { provider, messages })
}

/// The event while a report is made.
pub fn report_begun(session: &Session) -> (r: AppEvent)
    ensures
        r@ == (EventView::AiStatus {
            session: session@.id,
            ai: AiStateKind::Thinking,
            message: Some("正在生成完整会议纪要…"@),
            calls: session@.summary.calls,
        }),
{
    ai_status_event(
        session.id.as_str(),
        AiStateKind::Thinking,
        Some("正在生成完整会议纪要…".to_owned()),
        session.summary.calls,
    )
}

/// Takes what the model wrote, or what went wrong.
pub fn finish_report(session: &mut Session, answer: AppResult<String>) -> (r: (
    AppEvent,
    AppResult<String>,
))
    ensures
        match answer {
            Ok(text) => {
                &&& final(session)@ == (SessionView {
                    report_md: Some(trimmed(text@)),
                    ..old(session)@
                })
                &&& r.0@ == (EventView::AiStatus {
                    session: old(session)@.id,
                    ai: AiStateKind::Idle,
                    message: Some("完整会议纪要已生成"@),
                    calls: old(session)@.summary.calls,
                })
                &&& r.1 matches Ok(report) && report@ == trimmed(text@)
            },
            Err(e) => {
                &&& final(session)@ == old(session)@
                &&& r.0@ == (EventView::AiStatus {
                    session: old(session)@.id,
                    ai: AiStateKind::Error,
                    message: Some(e@.message()),
                    calls: old(session)@.summary.calls,
                })
                &&& r.1 matches Err(f) && f@ == e@
            },
        },
{
    match answer {
        Ok(text) => {
            let report = trim(text.as_str()).to_owned();
            session.report_md = Some(report.clone());
            (
                ai_status_event(
                    session.id.as_str(),
                    AiStateKind::Idle,
                    Some("完整会议纪要已生成".to_owned()),
                    session.summary.calls,
                ),
                Ok(report),
            )
        },
        Err(e) => (
            ai_status_event(
                session.id.as_str(),
                AiStateKind::Error,
                Some(e.message()),
                session.summary.calls,
            ),
            Err(e),
        ),
    }
}

/// Whether a report is made when a recording stops.
pub fn wants_final_report(ai: &AiSettings, session: &Session) -> (r: bool)
    ensures
        r == (ai@.final_report_on_stop && ai@.ready() && session@.segments.len() > 0),
{
    proof {
        assert(session@.segments.len() == session.segments@.len());
    }
    ai.final_report_on_stop && ai.ready() && session.segments.len() > 0
}

// ---------------------------------------------------------------------------
// Importing a file
// ---------------------------------------------------------------------------

/// How an import is transcribed.
#[derive(Debug)]
pub struct ImportPlan {
    pub provider: AsrProvider,
    pub config: SessionConfig,
    pub title: String,
}

pub const IMPORT_INCOMPLETE: &'static str = "语音识别服务配置不完整（需要 Base URL 与模型名）";

/// The source under which imported audio is shown.
pub const IMPORT_SOURCE: &'static str = "file:import";

/// Says how to transcribe a file with so many samples, or why it cannot be done.
pub fn plan_import(name: &Option<String>, samples: usize, asr: &AsrSettings) -> (r: AppResult<
    ImportPlan,
>)
    ensures
        if samples == 0 {
            r matches Err(e) && e@ == ErrorView::Audio("音频文件里没有可识别的内容"@)
        } else {
            match asr@.active_index(0) {
                None => r matches Err(e) && e@ == ErrorView::Asr(NO_ASR@),
                Some(i) => if !asr@.providers[i].usable() {
                    r matches Err(e) && e@ == ErrorView::Asr(IMPORT_INCOMPLETE@)
                } else {
                    r matches Ok(plan) && {
                        &&& plan.provider@ == asr@.providers[i]
                        &&& plan.config@ == planned_config(
                            plan.provider@,
                            None,
                            None,
                            Seq::empty(),
                        )
                        &&& plan.title@ == "导入："@ + truncated(
                            match opt_view(*name) {
                                Some(n) => n,
                                None => "导入的音频"@,
                            },
                            60,
                        )
                    }
                },
            }
        },
{
    if samples == 0 {
        return Err(AppError::audio("音频文件里没有可识别的内容"));
    }
    let mut title = "导入：".to_owned();
    match name {
        Some(n) => title.append(truncate_chars(n.as_str(), 60).as_str()),
        None => title.append(truncate_chars("导入的音频", 60).as_str()),
    }
    let provider = match usable_provider(asr, IMPORT_INCOMPLETE) {
        Ok(p) => p,
        Err(e) => {
            return Err(e);
        },
    };
    let config = SessionConfig {
        model_id: describe_model(&provider),
        enable_mic: false,
        enable_loopback: false,
        mic_label: None,
        loopback_label: None,
    };
    Ok(ImportPlan { provider, config, title })
}

// ---------------------------------------------------------------------------
// Stored sessions
// ---------------------------------------------------------------------------

/// The first place of an id in a list, from `from` on.
pub open spec fn place_of(items: Seq<ListItemView>, id: Seq<char>, from: int) -> Option<int>
    decreases items.len() - from,
{
    if from < 0 || from >= items.len() {
        None
    } else if items[from].id == id {
        Some(from)
    } else {
        place_of(items, id, from + 1)
    }
}

/// The stored sessions with the one that is being recorded: in its place, or
/// first.
pub open spec fn with_live(items: Seq<ListItemView>, live: ListItemView) -> Seq<ListItemView> {
    match place_of(items, live.id, 0) {
        Some(i) => items.update(i, live),
        None => seq![live] + items,
    }
}

/// Brings the session that is being recorded up to date in a list.
pub fn merge_live(items: Vec<SessionListItem>, live: SessionListItem) -> (r: Vec<SessionListItem>)
    ensures
        list_views(r@) == with_live(list_views(items@), live@),
{
    let ghost all = list_views(items@);
    let ghost lv = live@;
    let mut items = items;
    let n: usize = items.len();
    let mut i: usize = 0;
    while i < n
        invariant
            i <= n == items@.len(),
            all == list_views(items@),
            lv == live@,
            place_of(all, lv.id, 0) == place_of(all, lv.id, i as int),
        ensures
            i <= n,
            all == list_views(items@),
            i < n ==> place_of(all, lv.id, 0) == Some(i as int),
            i == n ==> place_of(all, lv.id, 0) is None,
        decreases n - i,
    {
        proof {
            assert(all[i as int] == items@[i as int]@);
        }
        if same(items[i].id.as_str(), live.id.as_str()) {
            break;
        }
        i += 1;
    }
    if i < n {
        items.set(i, live);
        proof {
            assert(list_views(items@) =~= all.update(i as int, lv));
        }
    } else {
        items.insert(0, live);
        proof {
            assert(list_views(items@) =~= seq![lv] + all);
        }
    }
    items
}

proof fn lemma_place_of(items: Seq<ListItemView>, id: Seq<char>, from: int)
    requires
        0 <= from,
    ensures
        match place_of(items, id, from) {
            Some(i) => from <= i < items.len() && items[i].id == id,
            None => forall|j: int| from <= j < items.len() ==> (#[trigger] items[j]).id != id,
        },
    decreases items.len() - from,
{
    if from < items.len() && items[from].id != id {
        lemma_place_of(items, id, from + 1);
    }
}

/// The list shows the recording as it is now, and every other session as it is
/// stored.
pub proof fn law_live_session_is_listed(items: Seq<ListItemView>, live: ListItemView, i: int)
    requires
        0 <= i < items.len(),
    ensures
        with_live(items, live).contains(live),
        items[i].id != live.id ==> with_live(items, live).contains(items[i]),
{
    lemma_place_of(items, live.id, 0);
    match place_of(items, live.id, 0) {
        Some(k) => {
            assert(with_live(items, live)[k] == live);
            if items[i].id != live.id {
                assert(with_live(items, live)[i] == items[i]);
            }
        },
        None => {
            assert(with_live(items, live)[0] == live);
            assert(with_live(items, live)[i + 1] == items[i]);
        },
    }
}

/// The error where a session to be deleted is being recorded.
pub fn ensure_deletable(id: &str, recording_id: &Option<String>) -> (r: AppResult<()>)
    ensures
        match r {
            Ok(_) => opt_view(*recording_id) != Some(id@),
            Err(e) => opt_view(*recording_id) == Some(id@) && e@ == ErrorView::Session(
                "该会话正在录音中，请先停止"@,
            ),
        },
{
    match recording_id {
        Some(rid) => if same(rid.as_str(), id) {
            Err(AppError::session("该会话正在录音中，请先停止"))
        } else {
            Ok(())
        },
        None => Ok(()),
    }
}

/// Renames a session; a title cannot be blank.
pub fn rename_session(session: &mut Session, title: &str) -> (r: AppResult<()>)
    ensures
        match r {
            Ok(_) => !blank(title@) && final(session)@ == (SessionView {
                title: trimmed(title@),
                ..old(session)@
            }),
            Err(e) => blank(title@) && final(session)@ == old(session)@ && e@
                == ErrorView::Session("标题不能为空"@),
        },
{
    if is_blank(title) {
        return Err(AppError::session("标题不能为空"));
    }
    session.title = trim(title).to_owned();
    Ok(())
}

// ---------------------------------------------------------------------------
// The application
// ---------------------------------------------------------------------------

/// Facts for the page about the application.
#[derive(Debug)]
pub struct AppInfo {
    pub name: String,
    pub version: String,
    pub platform: String,
    pub arch: String,
    pub data_dir: String,
    pub sessions_dir: String,
    pub recordings_dir: String,
    /// The recognition service in use.
    pub asr_service: String,
    pub vad_engine: String,
}

/// What is said of the recognition service.
pub fn asr_service_text(asr: &AsrSettings) -> (r: String)
    ensures
        r@ == match asr@.active_index(0) {
            Some(i) => if asr@.ready() {
                service_text(
                    asr@.providers[i].name,
                    asr@.providers[i].model,
                    asr@.providers[i].endpoint(),
                )
            } else {
                "未配置语音识别服务"@
            },
            None => "未配置语音识别服务"@,
        },
{
    match asr.active() {
        Some(p) => if asr.ready() {
            describe_service(p.name.as_str(), p.model.as_str(), p.endpoint().as_str())
        } else {
            "未配置语音识别服务".to_owned()
        },
        None => "未配置语音识别服务".to_owned(),
    }
}

/// An address that may be opened: only web pages, so that nothing else is handed
/// to the system.
pub fn checked_url(url: &str) -> (r: AppResult<String>)
    ensures
        ({
            let t = trimmed(url@);
            if "https://"@.is_prefix_of(t) || "http://"@.is_prefix_of(t) {
                r matches Ok(s) && s@ == t
            } else {
                r matches Err(e) && e@ == ErrorView::Other("只允许打开 http/https 链接"@)
            }
        }),
{
    let t = trim(url);
    if !starts_with(t, "https://") && !starts_with(t, "http://") {
        return Err(AppError::Other("只允许打开 http/https 链接".to_owned()));
    }
    Ok(t.to_owned())
}

/// Where data is kept: as the settings say, else at the usual place.
pub fn data_dir(configured: &Option<String>, usual: &str) -> (r: String)
    ensures
        r@ == match opt_view(*configured) {
            Some(d) => if d.len() == 0 {
                usual@
            } else {
                d
            },
            None => usual@,
        },
{
    match copy_opt(configured) {
        Some(d) => if d.as_str().unicode_len() == 0 {
            usual.to_owned()
        } else {
            d
        },
        None => usual.to_owned(),
    }
}

/// A source that was asked for is taken, else the one remembered, else the one that
/// the system prefers; each kind goes by its own choice, and one that is not wanted is
/// not taken.
pub proof fn law_asked_sources_come_first(
    asked: Option<Seq<char>>,
    remembered: Option<Seq<char>>,
    sources: Seq<SourceInfoView>,
    kind: SourceKind,
    req: StartSessionRequest,
    audio: AudioSettings,
)
    ensures
        asked matches Some(a) ==> !blank(a) ==> chosen_source(asked, remembered, sources, kind)
            == Some(a),
        (asked is None || blank(asked->0)) ==> (remembered matches Some(r) ==> !blank(r)
            ==> chosen_source(asked, remembered, sources, kind) == Some(r)),
        (asked is None || blank(asked->0)) && (remembered is None || blank(remembered->0)) ==> (
        preferred_source(sources, kind) matches Some(i) ==> chosen_source(
            asked,
            remembered,
            sources,
            kind,
        ) == Some(sources[i].id)),
        !req.enable_mic ==> requested_source(req, audio, sources, SourceKind::Microphone) is None,
        !req.enable_loopback ==> requested_source(
            req,
            audio,
            sources,
            SourceKind::Loopback,
        ) is None,
        req.enable_mic ==> (opt_view(req.mic_device_id) matches Some(a) ==> !blank(a)
            ==> requested_source(req, audio, sources, SourceKind::Microphone) == Some(a)),
        req.enable_loopback ==> (opt_view(req.loopback_device_id) matches Some(a) ==> !blank(a)
            ==> requested_source(req, audio, sources, SourceKind::Loopback) == Some(a)),
{
}

/// A recording begins unless one is going on, a wanted source is missing, or there is
/// no usable service; and then it says which.
pub proof fn law_recordings_begin_when_they_can(
    recording: bool,
    mic_missing: bool,
    loopback_missing: bool,
    asr: AsrSettingsView,
    i: int,
)
    ensures
        recording ==> start_refused(recording, mic_missing, loopback_missing, asr) is Some,
        mic_missing || loopback_missing ==> start_refused(
            recording,
            mic_missing,
            loopback_missing,
            asr,
        ) is Some,
        asr.active_index(0) is None ==> start_refused(
            recording,
            mic_missing,
            loopback_missing,
            asr,
        ) is Some,
        asr.active_index(0) == Some(i) && !asr.providers[i].usable() ==> start_refused(
            recording,
            mic_missing,
            loopback_missing,
            asr,
        ) is Some,
        !recording && !mic_missing && !loopback_missing && asr.active_index(0) == Some(i)
            && asr.providers[i].usable() ==> start_refused(
            recording,
            mic_missing,
            loopback_missing,
            asr,
        ) is None,
{
}

/// What a recording says of itself: the service and model, which kinds of sources it
/// has, and the labels of exactly these.
pub proof fn law_recordings_tell_their_sources(
    p: AsrProviderView,
    mic: Option<Seq<char>>,
    loopback: Option<Seq<char>>,
    sources: Seq<SourceInfoView>,
    k: int,
)
    requires
        0 <= k < sources.len(),
        forall|j: int| 0 <= j < k ==> (#[trigger] sources[j]).id != sources[k].id,
    ensures
        ({
            let c = planned_config(p, mic, loopback, sources);
            &&& c.model_id == p.name + " · "@ + p.model
            &&& c.enable_mic == (mic is Some) && c.enable_loopback == (loopback is Some)
            &&& mic == Some(sources[k].id) ==> c.mic_label == Some(sources[k].label)
            &&& loopback == Some(sources[k].id) ==> c.loopback_label == Some(sources[k].label)
            &&& mic is None ==> c.mic_label is None
            &&& loopback is None ==> c.loopback_label is None
        }),
{
    lemma_label_of(sources, k, 0);
}

proof fn lemma_label_of(sources: Seq<SourceInfoView>, k: int, from: int)
    requires
        0 <= from <= k < sources.len(),
        forall|j: int| 0 <= j < k ==> (#[trigger] sources[j]).id != sources[k].id,
    ensures
        label_of(sources, sources[k].id, from) == Some(sources[k].label),
    decreases k - from,
{
    if from < k {
        assert(sources[from].id != sources[k].id);
        lemma_label_of(sources, k, from + 1);
    }
}

/// A title that was given is the title; white space around it does not count.
pub proof fn law_given_titles_are_kept(asked: Seq<char>, now: i64)
    requires
        !blank(asked),
    ensures
        session_title(Some(asked), now) == trimmed(asked),
{
}

/// A report is asked for with all that was said and is trusted, the title, and how
/// long the meeting was.
pub proof fn law_reports_are_about_all_that_was_said(ai: AiSettingsView, s: SessionView)
    requires
        trimmed(trusted_transcript(s.segments)).len() <= ai.max_context_chars * 2,
        trimmed(trusted_transcript(s.segments)).len() <= usize::MAX,
    ensures
        ({
            let m = report_messages(ai, s);
            let said = trimmed(trimmed(trusted_transcript(s.segments)));
            &&& m.len() == 2 && m[0].role == "system"@ && m[1].role == "user"@
            &&& m[0].content == REPORT_SYSTEM@
            &&& m[1].content == "【标题】"@ + s.title + "\n【会议信息】"@ + ("时长 "@ + clock(
                s.duration as int,
            ) + " · 识别模型 "@ + s.config.model_id + " · 共 "@ + decimal(s.segments.len())
                + " 段转写"@) + "\n\n【完整转写内容】\n"@ + said + "\n\n请按系统提示的结构输出会议纪要。"@
        }),
{
    let t = trimmed(trusted_transcript(s.segments));
    let p = |c: char| crate::text::space(c);
    let left = crate::text::strip_left(t, p);
    crate::text::lemma_strip_left(t, p);
    crate::text::lemma_strip_right(left, p);
}

/// A pause stops the time of a recording, and going on starts it again; nothing that
/// was said is touched.
pub proof fn law_pauses_touch_nothing_said(s: SessionView, now: i64)
    ensures
        paused(s, now as int).segments == s.segments && paused(s, now as int).summary == s.summary,
        paused(s, now as int).status == SessionStatus::Paused,
        paused(s, now as int).resumed_at is None,
        paused(s, now as int).title == s.title && paused(s, now as int).stats == s.stats,
        resumed(s, now).segments == s.segments && resumed(s, now).summary == s.summary,
        resumed(s, now).status == SessionStatus::Recording,
        resumed(s, now).resumed_at == Some(now),
        resumed(s, now).duration == s.duration && resumed(s, now).title == s.title,
        s.resumed_at matches Some(t) ==> now >= t && i64::MIN <= s.duration + (now - t) <= i64::MAX
            ==> paused(s, now as int).duration == s.duration + (now - t),
{
}

/// What [`plan_session`] plans: the chosen service, the sources asked for, each with
/// the gain of its own kind, and the title that was given.
pub proof fn law_plans_follow_the_request(
    req: &StartSessionRequest,
    asr: &AsrSettings,
    audio: &AudioSettings,
    sources: &Vec<AudioSourceInfo>,
    recording: bool,
    now: i64,
    r: AppResult<SessionPlan>,
    i: int,
)
    requires
        call_ensures(plan_session, (req, asr, audio, sources, recording, now), r),
        0 <= i < asr.providers@.len(),
        asr@.active_index(0) == Some(i),
    ensures
        recording ==> r is Err,
        r matches Ok(plan) ==> {
            &&& plan.provider.model@ == asr.providers@[i].model@
            &&& plan.provider.base_url@ == asr.providers@[i].base_url@
            &&& plan.provider.api_key@ == asr.providers@[i].api_key@
            &&& plan.capture.mic_gain == audio.mic_gain
            &&& plan.capture.loopback_gain == audio.loopback_gain
            &&& req.enable_mic == (plan.capture.mic_device_id is Some)
            &&& req.enable_loopback == (plan.capture.loopback_device_id is Some)
            &&& req.mic_device_id matches Some(id) ==> req.enable_mic && !blank(id@) ==> (
            plan.capture.mic_device_id matches Some(d) && d@ == id@)
            &&& req.loopback_device_id matches Some(id) ==> req.enable_loopback && !blank(id@) ==> (
            plan.capture.loopback_device_id matches Some(d) && d@ == id@)
            &&& req.title matches Some(t) ==> !blank(t@) ==> plan.title@ == trimmed(t@)
            &&& req.save_audio matches Some(b) ==> plan.save_audio == b
            &&& req.save_audio is None ==> plan.save_audio == audio.save_audio
        },
{
    assert(asr@.providers[i] == asr.providers@[i]@);
    if let Ok(plan) = r {
        assert(plan.provider@ == asr.providers@[i]@);
        assert(plan.provider@.model == plan.provider.model@);
        assert(opt_view(plan.capture.mic_device_id) is Some == (plan.capture.mic_device_id is Some));
        assert(opt_view(plan.capture.loopback_device_id) is Some == (
        plan.capture.loopback_device_id is Some));
    }
}

/// What [`finish_report`] does with a report: the session keeps it, and nothing else of
/// the session changes; one that failed changes nothing.
pub proof fn law_reports_are_kept(
    session: &mut Session,
    answer: AppResult<String>,
    r: (AppEvent, AppResult<String>),
)
    requires
        call_ensures(finish_report, (session, answer), r),
    ensures
        answer matches Ok(text) ==> {
            &&& opt_view(final(session).report_md) == Some(trimmed(text@))
            &&& r.1 matches Ok(t) && t@ == trimmed(text@)
            &&& final(session)@.segments == old(session)@.segments
            &&& final(session)@.summary == old(session)@.summary
        },
        answer is Err ==> final(session)@ == old(session)@ && r.1 is Err,
{
    assert(final(session)@.report_md == opt_view(final(session).report_md));
}

/// What [`prepare_report`] asks, and whom.
pub proof fn law_reports_are_asked_of_the_chosen_service(
    ai: &AiSettings,
    session: &Session,
    r: AppResult<ReportRound>,
    i: int,
)
    requires
        call_ensures(prepare_report, (ai, session), r),
        0 <= i < ai.providers@.len(),
        ai@.active_index(0) == Some(i),
    ensures
        session.segments@.len() == 0 ==> r is Err,
        ai@.providers[i].usable() && session.segments@.len() > 0 ==> (r matches Ok(round)
            && round.provider.model@ == ai.providers@[i].model@ && round.provider.base_url@
            == ai.providers@[i].base_url@ && round.messages@.len() == 2 && round.messages@[1].role@
            == "user"@ && round.messages@[1].content@ == report_messages(ai@, session@)[1].content),
{
    assert(ai@.providers[i] == ai.providers@[i]@);
    assert(session@.segments.len() == session.segments@.len());
    if let Ok(round) = r {
        assert(message_views(round.messages@).len() == round.messages@.len());
        assert(message_views(round.messages@)[1] == round.messages@[1]@);
        assert(round.provider@ == ai.providers@[i]@);
        assert(round.provider@.model == round.provider.model@);
    }
}

/// Who cannot record learns what is missing: the microphone, the sound of the system,
/// or the recognition service.
pub proof fn law_refusals_say_what_is_missing(asr: AsrSettingsView, loopback_missing: bool)
    ensures
        start_refused(false, true, loopback_missing, asr) == Some(
            ErrorView::Audio("没有找到可用的麦克风，请在设置里检查音频设备"@),
        ),
        start_refused(false, false, true, asr) == Some(
            ErrorView::Audio(
                "没有找到可用的系统内录设备。Windows 一般开箱可用；Linux 需要 PulseAudio/PipeWire 的 monitor 源；macOS 需要先安装 BlackHole 等虚拟声卡。"@,
            ),
        ),
        asr.active_index(0) is None ==> start_refused(false, false, false, asr) == Some(
            ErrorView::Asr("尚未配置语音识别服务，请打开「设置 → 语音识别」"@),
        ),
        asr.active_index(0) matches Some(i) ==> !asr.providers[i].usable() ==> start_refused(
            false,
            false,
            false,
            asr,
        ) == Some(
            ErrorView::Asr("语音识别服务配置不完整（需要 Base URL 与模型名），请打开「设置 → 语音识别」"@),
        ),
{
}

} // verus!
