//! Requests to language models and their replies.

use meeting_hear::ai::client::{
    build_body, connection_result, is_local_url, network_error, parse_chat_response, prepare_chat,
    probe_messages, probe_provider, read_models, receive, ChatAttempts, ChatError, ChatMessage,
    ChatStep, TokenUsage, MAX_ATTEMPTS,
};
use meeting_hear::http::extract_api_error;
use meeting_hear::settings::AiProvider;

fn provider() -> AiProvider {
    AiProvider {
        base_url: "https://api.example.com/v1".into(),
        model: "test-model".into(),
        json_mode: true,
        ..Default::default()
    }
}

#[test]
fn client_local_urls_bypass_proxy() {
    assert!(meeting_hear::asr::client::is_local_url("http://localhost:8080/inference"));
    assert!(meeting_hear::asr::client::is_local_url("http://127.0.0.1:8000/v1/audio/transcriptions"));
    assert!(!meeting_hear::asr::client::is_local_url("https://api.groq.com/openai/v1/audio/transcriptions"));
    assert!(!meeting_hear::asr::client::is_local_url("https://localhost.evil.com/x"));
    assert!(is_local_url("http://localhost:11434/v1/chat/completions"));
    assert!(is_local_url("http://127.0.0.1:8000/v1/chat/completions"));
    assert!(is_local_url("http://127.1.2.3:8000/v1/models"));
    assert!(!is_local_url("https://api.deepseek.com/v1/chat/completions"));
    assert!(!is_local_url("https://localhost.evil.com/v1"));
}

#[test]
fn body_includes_json_mode_and_limits() {
    let p = provider();
    let msgs = vec![ChatMessage::user("你好")];
    let body = build_body(&p, &msgs, Some(64), true);
    assert!(body.json_object);
    assert_eq!(body.max_tokens, Some(64));
    assert!(!body.stream);
    assert_eq!(body.model, "test-model");

    let body = build_body(&p, &msgs, None, false);
    assert!(!body.json_object);
    assert_eq!(body.max_tokens, Some(1200));
}

#[test]
fn parses_normal_response() {
    let raw = r#"{"model":"deepseek-chat","choices":[{"message":{"content":"正常"},"finish_reason":"stop"}],
        "usage":{"prompt_tokens":10,"completion_tokens":2,"total_tokens":12}}"#;
    let out = parse_chat_response(raw).unwrap();
    assert_eq!(out.content, "正常");
    assert_eq!(out.usage.total_tokens, 12);
    assert_eq!(out.model, "deepseek-chat");
}

#[test]
fn falls_back_to_reasoning_content() {
    let raw = r#"{"choices":[{"message":{"content":"","reasoning_content":"思考结果"}}]}"#;
    assert_eq!(parse_chat_response(raw).unwrap().content, "思考结果");
}

#[test]
fn empty_content_reports_length_truncation() {
    let raw = r#"{"choices":[{"message":{"content":""},"finish_reason":"length"}]}"#;
    let err = parse_chat_response(raw).unwrap_err().message();
    assert!(err.contains("max_tokens"), "实际错误：{err}");
}

#[test]
fn extracts_error_messages() {
    assert_eq!(
        extract_api_error(r#"{"error":{"message":"Invalid API key","type":"auth"}}"#).unwrap(),
        "Invalid API key"
    );
    assert!(extract_api_error("<html>502 Bad Gateway</html>").unwrap().contains("502"));
}

#[test]
fn json_mode_rejection_detection() {
    let e = ChatError::Status {
        code: 400,
        message: "response_format is not supported".into(),
        raw: String::new(),
    };
    assert!(e.is_json_mode_rejection());
    let e2 = ChatError::Status { code: 400, message: "bad model".into(), raw: String::new() };
    assert!(!e2.is_json_mode_rejection());
}

#[test]
fn client_retryable_statuses() {
    let mk = |code| ChatError::Status { code, message: String::new(), raw: String::new() };
    assert!(mk(429).is_retryable());
    assert!(mk(503).is_retryable());
    assert!(!mk(400).is_retryable());
    assert!(!mk(401).is_retryable());
}

#[test]
fn friendly_error_messages() {
    let e = ChatError::Status { code: 401, message: "unauthorized".into(), raw: String::new() };
    let msg = e.to_app_error().message();
    assert!(msg.contains("API Key"), "实际：{msg}");

    let e = ChatError::Status { code: 404, message: String::new(), raw: String::new() };
    assert!(e.to_app_error().message().contains("Base URL"));
}


#[test]
fn attempts_end_and_json_is_given_up_once() {
    let rejected = ChatError::Status {
        code: 400,
        message: "response_format is not supported".into(),
        raw: String::new(),
    };
    let busy = ChatError::Status { code: 503, message: String::new(), raw: String::new() };
    let mut a = ChatAttempts::new(true);
    a.begin();
    assert_eq!(a.on_error(&rejected), ChatStep::RetryNow);
    assert!(!a.use_json && a.json_degraded);
    a.begin();
    assert_eq!(a.on_error(&rejected), ChatStep::GiveUp);
    let mut a = ChatAttempts::new(false);
    let mut waits = Vec::new();
    loop {
        a.begin();
        match a.on_error(&busy) {
            ChatStep::RetryAfter(d) => waits.push(d.as_secs()),
            ChatStep::RetryNow => unreachable!(),
            ChatStep::GiveUp => break,
        }
    }
    assert_eq!(waits, vec![1, 2, 4]);
    assert_eq!(a.attempt, MAX_ATTEMPTS);
}

#[test]
fn incomplete_services_are_not_asked() {
    let mut p = provider();
    assert_eq!(prepare_chat(&p).unwrap().model, "test-model");
    p.model = " ".into();
    assert!(prepare_chat(&p).unwrap_err().message().contains("尚未配置模型名称"));
    p.base_url = " ".into();
    assert!(prepare_chat(&p).unwrap_err().message().contains("Base URL"));
}

#[test]
fn models_are_listed_once_and_in_order() {
    let body = r#"{"data":[{"id":"b"},{"id":"a"},{"id":"b"}],"models":[{"name":"c"}]}"#;
    assert_eq!(read_models(200, body).unwrap(), vec!["a", "b", "c"]);
    assert!(read_models(200, "x").unwrap_err().message().contains("不是合法 JSON"));
    let e = read_models(401, r#"{"error":{"message":"no"}}"#).unwrap_err().message();
    assert!(e.contains("拉取模型列表失败（HTTP 401）：no"), "{e}");
}

#[test]
fn replies_are_judged_by_their_status() {
    match receive(500, r#"{"error":{"message":"boom"}}"#) {
        Err(ChatError::Status { code, message, .. }) => {
            assert_eq!((code, message.as_str()), (500, "boom"))
        }
        _ => unreachable!(),
    }
    let ok = r#"{"choices":[{"message":{"content":"好"}}]}"#;
    assert!(matches!(receive(200, ok), Ok(o) if o.content == "好"));
    assert!(matches!(receive(200, "{}"), Err(ChatError::Transport(_))));
    let e = network_error(true, false, "x").message();
    assert!(e.contains("请求超时"));
    assert!(network_error(false, true, "x").message().contains("无法连接到 AI 服务：x"));
    assert!(network_error(false, false, "x").message().contains("网络请求失败：x"));
}

#[test]
fn a_service_is_tried_out_quickly() {
    let mut p = provider();
    p.timeout_secs = 120;
    let probe = probe_provider(&p);
    assert_eq!(probe.timeout_secs, 30);
    assert!(!probe.json_mode);
    assert_eq!(probe_messages().len(), 2);
    let answer = parse_chat_response(r#"{"choices":[{"message":{"content":" 正常 "}}]}"#);
    let t = connection_result(&p, answer, 12, vec![]);
    assert!(t.ok && t.error.is_none());
    assert_eq!((t.sample.as_str(), t.model.as_str(), t.latency_ms), ("正常", "test-model", 12));
    let t = connection_result(&p, parse_chat_response("{}"), 1, vec![]);
    assert!(!t.ok && t.error.is_some());
}

#[test]
fn usage_adds_up_without_overflow() {
    let mut u = TokenUsage { prompt_tokens: u32::MAX, completion_tokens: 1, total_tokens: 2 };
    u.accumulate(&TokenUsage { prompt_tokens: 5, completion_tokens: 2, total_tokens: 3 });
    assert_eq!((u.prompt_tokens, u.completion_tokens, u.total_tokens), (u32::MAX, 3, 5));
}
