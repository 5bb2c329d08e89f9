//! What the user interface can ask for.

use meeting_hear::audio::capture::{AudioSourceInfo, SourceKind};
use meeting_hear::commands::{
    asr_service_text, checked_url, data_dir, ensure_ai_ready, ensure_deletable, ensure_idle,
    ensure_recording, finish_report, interrupted_saved_text, interrupted_text, merge_live,
    pause_session, plan_import, plan_session, prepare_report, recording_name, rename_session,
    report_begun, resume_session, wants_final_report, StartSessionRequest,
};
use meeting_hear::error::AppError;
use meeting_hear::events::{AiStateKind, AppEvent};
use meeting_hear::session::{Session, SessionConfig, SessionStatus, TranscriptSegment};
use meeting_hear::settings::Settings;

fn source(kind: SourceKind, id: &str, is_default: bool) -> AudioSourceInfo {
    AudioSourceInfo {
        id: id.into(),
        kind,
        label: format!("标签 {id}"),
        detail: "x".into(),
        is_default,
        available: true,
        note: None,
    }
}

fn sources() -> Vec<AudioSourceInfo> {
    vec![
        source(SourceKind::Microphone, "mic:a", false),
        source(SourceKind::Microphone, "mic:b", true),
        source(SourceKind::Loopback, "loopback:c", false),
    ]
}

fn session() -> Session {
    let mut s = Session::new("周会".into(), SessionConfig::default());
    s.config.model_id = "Groq · whisper".into();
    s.push_segment(TranscriptSegment {
        id: 0,
        text: "大家好。".into(),
        start_ms: 0,
        end_ms: 1_000,
        confidence: None,
        suspect: None,
    });
    s
}

#[test]
fn a_recording_takes_what_was_asked_remembered_or_preferred() {
    let mut s = Settings::default();
    let req = StartSessionRequest { enable_loopback: true, ..Default::default() };
    let plan = plan_session(&req, &s.asr, &s.audio, &sources(), false, 0).unwrap();
    assert_eq!(plan.capture.mic_device_id.as_deref(), Some("mic:b"));
    assert_eq!(plan.capture.loopback_device_id.as_deref(), Some("loopback:c"));
    assert_eq!(plan.config.mic_label.as_deref(), Some("标签 mic:b"));
    assert_eq!(plan.config.model_id, format!("{} · {}", plan.provider.name, plan.provider.model));
    assert!(plan.save_audio && plan.config.enable_loopback);
    assert_eq!(plan.title, "会议 01-01 00:00");

    s.audio.mic_device_id = Some("mic:a".into());
    let req = StartSessionRequest {
        title: Some("  周会 ".into()),
        mic_device_id: Some("  ".into()),
        save_audio: Some(false),
        ..Default::default()
    };
    let plan = plan_session(&req, &s.asr, &s.audio, &sources(), false, 0).unwrap();
    assert_eq!(plan.capture.mic_device_id.as_deref(), Some("mic:a"));
    assert_eq!(plan.capture.loopback_device_id, None);
    assert_eq!(plan.config.loopback_label, None);
    assert_eq!(plan.title, "周会");
    assert!(!plan.save_audio);

    let req = StartSessionRequest { mic_device_id: Some("mic:z".into()), ..req };
    let plan = plan_session(&req, &s.asr, &s.audio, &sources(), false, 0).unwrap();
    assert_eq!(plan.capture.mic_device_id.as_deref(), Some("mic:z"));
    assert_eq!(plan.config.mic_label, None);
}

#[test]
fn a_recording_is_refused_with_a_reason() {
    let mut s = Settings::default();
    let req = StartSessionRequest { enable_loopback: true, ..Default::default() };
    let why = |s: &Settings, list: &Vec<AudioSourceInfo>, recording: bool| {
        plan_session(&req, &s.asr, &s.audio, list, recording, 0).unwrap_err().message()
    };
    assert!(why(&s, &sources(), true).ends_with("已有正在进行的录音，请先停止"));
    assert!(why(&s, &vec![], false).contains("没有找到可用的麦克风"));
    assert!(why(&s, &sources()[..2].iter().map(|x| source(x.kind, &x.id, false)).collect(), false)
        .contains("没有找到可用的系统内录设备"));
    s.asr.providers[0].model.clear();
    assert!(why(&s, &sources(), false).contains("配置不完整"));
    s.asr.providers.clear();
    assert!(why(&s, &sources(), false).contains("尚未配置语音识别服务"));
}

#[test]
fn pauses_are_not_counted() {
    let mut s = session();
    s.duration_ms = 0;
    s.resumed_at = Some(1_000);
    pause_session(&mut s, 4_000);
    assert_eq!((s.status, s.duration_ms, s.resumed_at), (SessionStatus::Paused, 3_000, None));
    assert_eq!(s.live_duration_ms(99_000), 3_000);
    resume_session(&mut s, 10_000);
    assert_eq!(s.live_duration_ms(10_500), 3_500);
    assert_eq!(s.status, SessionStatus::Recording);
}

#[test]
fn reports_are_asked_for_and_kept() {
    let mut s = session();
    s.duration_ms = 61_000;
    let ai = Settings::default().ai;
    let round = prepare_report(&ai, &s).unwrap();
    let user = &round.messages[1].content;
    assert!(user.contains("时长 00:01:01 · 识别模型 Groq · whisper · 共 1 段转写"));
    assert!(user.contains("[00:00:00] 大家好。"));
    match report_begun(&s) {
        AppEvent::AiStatus(e) => assert_eq!(e.state, AiStateKind::Thinking),
        _ => unreachable!(),
    }
    let (event, r) = finish_report(&mut s, Ok("  # 纪要\n".into()));
    assert_eq!(r.unwrap(), "# 纪要");
    assert_eq!(s.report_md.as_deref(), Some("# 纪要"));
    match event {
        AppEvent::AiStatus(e) => assert_eq!(e.message.as_deref(), Some("完整会议纪要已生成")),
        _ => unreachable!(),
    }
    let (_, r) = finish_report(&mut s, Err(AppError::ai("坏了")));
    assert!(r.is_err());
    assert_eq!(s.report_md.as_deref(), Some("# 纪要"));
}

#[test]
fn reports_are_refused_with_a_reason() {
    let mut ai = Settings::default().ai;
    let empty = Session::new("x".into(), SessionConfig::default());
    assert!(prepare_report(&ai, &empty).unwrap_err().message().contains("还没有转写内容"));
    assert!(ensure_ai_ready(&ai).is_ok());
    ai.final_report_on_stop = true;
    assert!(wants_final_report(&ai, &session()));
    assert!(!wants_final_report(&ai, &empty));
    ai.providers[0].model.clear();
    assert!(prepare_report(&ai, &session()).unwrap_err().message().contains("配置不完整"));
    assert!(ensure_ai_ready(&ai).unwrap_err().message().contains("请先在设置里配置 AI 接口"));
    ai.providers.clear();
    assert!(prepare_report(&ai, &session()).unwrap_err().message().contains("尚未配置 AI 服务商"));
}

#[test]
fn files_are_imported() {
    let mut asr = Settings::default().asr;
    let plan = plan_import(&Some("周会.mp3".into()), 16_000, &asr).unwrap();
    assert_eq!(plan.title, "导入：周会.mp3");
    assert!(!plan.config.enable_mic && !plan.config.enable_loopback);
    assert_eq!(plan_import(&None, 1, &asr).unwrap().title, "导入：导入的音频");
    assert!(plan_import(&None, 0, &asr).unwrap_err().message().contains("没有可识别的内容"));
    asr.providers[0].base_url.clear();
    assert!(plan_import(&None, 1, &asr).unwrap_err().message().contains("配置不完整"));
    asr.providers.clear();
    assert!(plan_import(&None, 1, &asr).unwrap_err().message().contains("尚未配置语音识别服务"));
}

#[test]
fn the_recording_is_shown_as_it_is_now() {
    let item = |id: &str, title: &str| {
        let mut s = session();
        s.id = id.into();
        s.title = title.into();
        s.list_item()
    };
    let list = merge_live(vec![item("a", "旧"), item("b", "旧")], item("b", "新"));
    let titles: Vec<&str> = list.iter().map(|i| i.title.as_str()).collect();
    assert_eq!(titles, vec!["旧", "新"]);
    let list = merge_live(vec![item("a", "旧")], item("c", "新"));
    assert_eq!((list[0].id.as_str(), list.len()), ("c", 2));
}

#[test]
fn small_decisions() {
    assert!(ensure_idle(false).is_ok() && ensure_idle(true).is_err());
    assert!(ensure_recording(true).is_ok());
    assert!(ensure_recording(false).unwrap_err().message().contains("当前没有正在进行的录音"));
    assert!(ensure_deletable("a", &None).is_ok());
    assert!(ensure_deletable("a", &Some("b".into())).is_ok());
    assert!(ensure_deletable("a", &Some("a".into())).is_err());
    let mut s = session();
    assert!(rename_session(&mut s, "  ").is_err());
    assert_eq!(s.title, "周会");
    rename_session(&mut s, " 新标题 ").unwrap();
    assert_eq!(s.title, "新标题");
    assert_eq!(checked_url(" https://a.b ").unwrap(), "https://a.b");
    assert!(checked_url("http://a").is_ok());
    assert!(checked_url("file:///etc/passwd").is_err());
    assert_eq!(data_dir(&None, "/u"), "/u");
    assert_eq!(data_dir(&Some("".into()), "/u"), "/u");
    assert_eq!(data_dir(&Some("/x".into()), "/u"), "/x");
    assert_eq!(recording_name("id"), "id.wav");
    assert_eq!(interrupted_text("拔出"), "拔出；已自动停止录音，避免继续录到空白内容");
    assert_eq!(interrupted_saved_text(3), "音频采集中断，已停止录音并保存（3 条转写）");
    let asr = Settings::default().asr;
    let p = asr.active().unwrap();
    assert_eq!(asr_service_text(&asr), format!("{} · {} · {}", p.name, p.model, p.endpoint()));
}
