//! Requests to recognition services and their replies.

use meeting_hear::asr::client::{
    after_failure, build_form, connection_result, extract_result, extract_text, is_local_url,
    network_error, prepare_transcribe, probe_request, receive, AsrError, AsrOutcome, AsrStep,
    TranscribeRequest,
};
use meeting_hear::asr::provider::provider_from_preset;
use meeting_hear::http::{extract_api_error, is_success, request_headers};
use meeting_hear::num::Single;
use meeting_hear::settings::AsrProvider;

#[test]
fn local_urls_bypass_proxy() {
    assert!(is_local_url("http://localhost:8080/inference"));
    assert!(is_local_url("http://127.0.0.1:8000/v1/audio/transcriptions"));
    assert!(!is_local_url("https://api.groq.com/openai/v1/audio/transcriptions"));
    assert!(!is_local_url("https://localhost.evil.com/x"));
}

#[test]
fn parses_openai_json_response() {
    let body = r#"{"text":" 你好世界 "}"#;
    assert_eq!(extract_text(body, "application/json").unwrap(), "你好世界");
}

#[test]
fn parses_verbose_json_response() {
    let body = r#"{"task":"transcribe","language":"zh","duration":3.2,"text":"会议开始","segments":[{"id":0,"text":"会议开始"}]}"#;
    let (text, lang) = extract_result(body, "application/json").unwrap();
    assert_eq!(text, "会议开始");
    assert_eq!(lang.as_deref(), Some("zh"));
}

#[test]
fn json_format_has_no_language_field() {
    let (text, lang) = extract_result(r#"{"text":"你好"}"#, "application/json").unwrap();
    assert_eq!(text, "你好");
    assert!(lang.is_none());
}

#[test]
fn parses_wrapped_response() {
    let body = r#"{"result":{"text":"嵌套结果"}}"#;
    assert_eq!(extract_text(body, "application/json").unwrap(), "嵌套结果");
}

#[test]
fn parses_plain_text_response() {
    // response_format=text 时服务直接返回纯文本
    assert_eq!(extract_text("纯文本结果", "text/plain").unwrap(), "纯文本结果");
    // whisper.cpp 在 text 格式下也会返回裸文本
    assert_eq!(extract_text("Hello world\n", "text/plain").unwrap(), "Hello world");
}

#[test]
fn rejects_html_error_pages() {
    let html = "<!DOCTYPE html><html><body>502 Bad Gateway</body></html>";
    assert!(extract_text(html, "text/html").is_none());
    assert!(extract_text(html, "text/plain").is_none());
}

#[test]
fn empty_text_is_not_a_valid_result() {
    assert!(extract_text("", "application/json").is_none());
    assert!(extract_text("   ", "text/plain").is_none());
    // 服务对纯静音可能返回空 text，此时文本为空字符串而不是 None
    assert_eq!(extract_text(r#"{"text":""}"#, "application/json").unwrap(), "");
}

#[test]
fn extracts_error_messages_from_json_and_plain() {
    assert_eq!(
        extract_api_error(r#"{"error":{"message":"Invalid API key"}}"#).unwrap(),
        "Invalid API key"
    );
    assert!(extract_api_error("<html>502</html>").unwrap().contains("502"));
    assert!(extract_api_error("").is_none());
}

#[test]
fn friendly_error_hints() {
    let e = AsrError::Status { code: 401, message: "unauthorized".into() };
    assert!(e.to_app_error().message().contains("API Key"));
    let e = AsrError::Status { code: 404, message: String::new() };
    assert!(e.to_app_error().message().contains("模型名"));
    let e = AsrError::Status { code: 429, message: String::new() };
    assert!(e.to_app_error().message().contains("频繁"));
}

#[test]
fn asr_retryable_statuses() {
    let mk = |code| AsrError::Status { code, message: String::new() };
    assert!(mk(429).is_retryable());
    assert!(mk(503).is_retryable());
    assert!(!mk(400).is_retryable());
    assert!(!mk(401).is_retryable());
}


fn single(x: f32) -> Single {
    Single { bits: x.to_bits() }
}

fn request(samples: usize) -> TranscribeRequest {
    TranscribeRequest {
        samples: vec![single(0.1); samples],
        prompt: Some("上一句\0话".into()),
        temperature: single(0.126),
    }
}

#[test]
fn requests_need_an_address_a_model_and_audio() {
    let mut p = provider_from_preset("openai");
    assert!(prepare_transcribe(&p, &request(10)).is_ok());
    let why = |p: &AsrProvider, n: usize| {
        prepare_transcribe(p, &request(n)).unwrap_err().message()
    };
    assert!(why(&p, 0).contains("音频为空"));
    p.model.clear();
    assert!(why(&p, 0).contains("尚未配置语音识别模型名"));
    p.base_url.clear();
    assert!(why(&p, 0).contains("Base URL"));
}

#[test]
fn the_form_holds_the_prompt_and_the_temperature() {
    let p = provider_from_preset("openai");
    let form = build_form(&p, &request(1), vec![1, 2, 3]).ok().unwrap();
    let shown = format!("{form:?}");
    for part in ["file", "audio.wav", "audio/wav", "model", "response_format", "temperature", "prompt"] {
        assert!(shown.contains(part), "{part}: {shown}");
    }
    assert!(!shown.contains("language"));
    let form = build_form(&p, &TranscribeRequest { prompt: Some(" ".into()), ..request(1) }, vec![]);
    assert!(!format!("{:?}", form.ok().unwrap()).contains("prompt"));
}

#[test]
fn one_failure_is_tried_again() {
    let busy = AsrError::Status { code: 503, message: String::new() };
    assert_eq!(after_failure(1, &busy), AsrStep::RetryAfterMs(1_500));
    assert_eq!(after_failure(2, &busy), AsrStep::GiveUp);
    let lost = AsrError::Network(network_error(true, false, ""));
    assert_eq!(after_failure(1, &lost), AsrStep::RetryAfterMs(1_500));
    let broken = AsrError::Transport(network_error(false, false, "x"));
    assert_eq!(after_failure(1, &broken), AsrStep::GiveUp);
    assert!(network_error(false, true, "x").message().contains("无法连接到识别服务：x"));
}

#[test]
fn replies_are_read_or_explained() {
    assert!(matches!(receive(200, "application/json", r#"{"text":"好"}"#), Ok((t, None)) if t == "好"));
    match receive(401, "text/plain", "bad key") {
        Err(AsrError::Status { code, message }) => assert_eq!((code, message.as_str()), (401, "bad key")),
        _ => unreachable!(),
    }
    match receive(200, "text/html", "<html>x</html>") {
        Err(e @ AsrError::Transport(_)) => {
            assert!(e.to_app_error().message().contains("无法解析的内容（Content-Type: text/html）"))
        }
        _ => unreachable!(),
    }
}

#[test]
fn a_service_is_tried_out_with_silence() {
    let probe = probe_request();
    assert_eq!(probe.samples.len(), 9_600);
    assert!(probe.samples.iter().all(|s| s.bits == 0));
    let p = provider_from_preset("groq");
    let ok = AsrOutcome { text: "".into(), language: None, elapsed_ms: 5, audio_ms: 600 };
    let t = connection_result(&p, Ok(ok), 5);
    assert!(t.ok && t.error.is_none() && t.model == p.model);
    let t = connection_result(&p, Err(network_error(true, false, "")), 5);
    assert!(!t.ok && t.error.unwrap().contains("超时"));
}

#[test]
fn services_say_who_is_asking() {
    let h = request_headers(" sk-1 ", &vec![(" X-A ".into(), " 1 ".into()), ("".into(), "2".into())]);
    assert_eq!(h.bearer.as_deref(), Some("sk-1"));
    assert_eq!(h.extra, vec![("X-A".to_string(), "1".to_string())]);
    assert_eq!(request_headers("  ", &vec![]).bearer, None);
    assert!(is_success(204) && !is_success(301));
}

#[test]
fn temperatures_have_two_decimals() {
    for x in [0.0f32, 0.126, 0.2, 0.995, 1.0, 12.345, -0.5, 0.005, 1e9, f32::INFINITY] {
        assert_eq!(single(x).fixed2(), format!("{x:.2}"), "{x}");
    }
}

#[test]
fn texts_that_look_like_json_are_texts() {
    assert_eq!(extract_text("42", "text/plain").unwrap(), "42");
    assert_eq!(extract_text("true\n", "text/plain").unwrap(), "true");
    assert_eq!(extract_text("\"你好 \"", "application/json").unwrap(), "你好");
    assert!(extract_text("null", "application/json").is_none());
    assert!(extract_text("[]", "application/json").is_none());
    assert!(extract_text("{}", "application/json").is_none());
}
