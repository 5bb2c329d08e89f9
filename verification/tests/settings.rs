//! Settings.

use meeting_hear::asr::client::{build_form, TranscribeRequest};
use meeting_hear::num::Single;
use meeting_hear::settings::{
    AiProvider, AiSettings, AsrProvider, AsrSettings, AudioSettings, GeneralSettings, Settings,
    VadSettings,
};

fn single(x: f32) -> Single {
    Single { bits: x.to_bits() }
}

#[test]
fn base_url_normalization() {
    let mut p = AiProvider::default();
    p.base_url = "https://api.deepseek.com/v1/".into();
    assert_eq!(p.chat_url(), "https://api.deepseek.com/v1/chat/completions");

    p.base_url = "https://api.openai.com/v1/chat/completions".into();
    assert_eq!(p.chat_url(), "https://api.openai.com/v1/chat/completions");
    assert_eq!(p.models_url(), "https://api.openai.com/v1/models");

    p.base_url = "http://localhost:11434/v1".into();
    assert_eq!(p.chat_url(), "http://localhost:11434/v1/chat/completions");
}

#[test]
fn sanitize_keeps_values_in_range() {
    let mut v = VadSettings {
        energy_threshold_db: single(99.0),
        min_silence_ms: 10,
        max_utterance_ms: 100,
        ..Default::default()
    };
    v.sanitize();
    assert!(f32::from_bits(v.energy_threshold_db.bits) <= 30.0);
    assert!(v.min_silence_ms >= 150);
    assert!(v.max_utterance_ms > v.min_silence_ms);
}

#[test]
fn model_name_is_optional_for_whisper_cpp_server() {
    // whisper.cpp server 只认启动时 -m 加载的模型，请求里的 model 字段它不看。
    // 以前把它做成必填，用户会被「模型名填什么」卡住。
    let whisper_cpp = AsrProvider {
        base_url: "http://127.0.0.1:8090".into(),
        transcription_path: "/inference".into(),
        model: String::new(),
        ..Default::default()
    };
    assert!(!whisper_cpp.model_is_required());
    assert!(whisper_cpp.is_usable(), "本地 whisper.cpp server 不应因为没填模型名而不可用");

    // OpenAI 兼容接口必须给模型名，服务端会按名字挑模型
    let openai = AsrProvider {
        base_url: "https://api.openai.com/v1".into(),
        transcription_path: "/audio/transcriptions".into(),
        model: String::new(),
        ..Default::default()
    };
    assert!(openai.model_is_required());
    assert!(!openai.is_usable(), "云端服务没有模型名必须算配置不完整");

    // 但地址本身还是必须的
    let no_host = AsrProvider {
        base_url: String::new(),
        transcription_path: "/inference".into(),
        model: String::new(),
        ..Default::default()
    };
    assert!(!no_host.is_usable());
}

#[test]
fn placeholder_url_is_not_usable() {
    // 预设「自定义」的初值是 https://，UI 会把它当成未配置；
    // 后端必须同样判定，否则会出现「测试连接说不能用、开始录音却放行」的分叉
    let mut p = AsrProvider {
        base_url: "https://".into(),
        model: "whisper-1".into(),
        ..Default::default()
    };
    assert!(p.host().is_empty());
    assert!(!p.is_usable(), "https:// 占位符不应被判定为可用");

    p.base_url = "http://".into();
    assert!(!p.is_usable());

    p.base_url = String::new();
    assert!(!p.is_usable());

    // 合法地址
    p.base_url = "https://api.groq.com/openai/v1".into();
    assert_eq!(p.host(), "api.groq.com");
    assert!(p.is_usable());

    // 本地服务
    p.base_url = "http://localhost:8090".into();
    assert_eq!(p.host(), "localhost:8090");
    assert!(p.is_usable());
}

#[test]
fn asr_endpoint_is_built_from_base_and_path() {
    let mut p = AsrProvider {
        base_url: "https://api.openai.com/v1/".into(),
        transcription_path: "/audio/transcriptions".into(),
        ..Default::default()
    };
    assert_eq!(p.endpoint(), "https://api.openai.com/v1/audio/transcriptions");

    // 用户把完整地址粘进 base_url 也要能纠正
    p.base_url = "https://api.groq.com/openai/v1/audio/transcriptions".into();
    assert_eq!(p.endpoint(), "https://api.groq.com/openai/v1/audio/transcriptions");

    // 本地 whisper.cpp server
    p.base_url = "http://localhost:8080".into();
    p.transcription_path = "/inference".into();
    assert_eq!(p.endpoint(), "http://localhost:8080/inference");

    // path 不带前导斜杠也要能工作
    p.transcription_path = "inference".into();
    assert_eq!(p.endpoint(), "http://localhost:8080/inference");
}

#[test]
fn api_key_is_stripped_when_not_persisted() {
    let mut s = Settings::default();
    s.ai.providers[0].api_key = "sk-secret".into();
    s.asr.providers[0].api_key = "asr-secret".into();
    s.general.persist_api_key = false;
    let stripped = s.for_persistence();
    assert!(stripped.ai.providers[0].api_key.is_empty());
    assert!(stripped.asr.providers[0].api_key.is_empty());
    s.general.persist_api_key = true;
    assert_eq!(s.for_persistence().ai.providers[0].api_key, "sk-secret");
    assert_eq!(s.for_persistence().asr.providers[0].api_key, "asr-secret");
}

#[test]
fn app_never_sends_a_language_field() {
    // 语言是识别服务自己的事：应用只管上传音频。
    // （踩过的事故：whisper.cpp server 的 language 默认是 en，
    //   应用一旦自己决定语言，就会把中文按英文识别。）
    let req = TranscribeRequest {
        samples: (0..160).map(|_| single(0.0)).collect(),
        prompt: None,
        temperature: single(0.0),
    };
    let form = build_form(
        &AsrProvider {
            model: "whisper-1".into(),
            ..Default::default()
        },
        &req,
        vec![0u8; 4],
    )
    .ok()
    .unwrap();
    let body = format!("{form:?}");
    assert!(
        !body.contains("language"),
        "应用不得自行决定识别语言，表单里不应有 language 字段"
    );
    assert!(body.contains("audio.wav"), "必须包含音频字段");
}

#[test]
fn services_get_ids_when_they_have_none() {
    let mut s = AiSettings::default();
    s.providers[0].id = "  ".into();
    s.providers.push(AiProvider { id: "".into(), ..Default::default() });
    s.sanitize();
    assert!(!s.providers[0].id.trim().is_empty());
    assert_ne!(s.providers[0].id, s.providers[1].id);
    for p in &s.providers {
        assert_eq!(p.id.len(), 33);
        let digits = p.id.strip_prefix('p').unwrap();
        assert!(digits.chars().all(|c| matches!(c, '0'..='9' | 'a'..='f')));
    }
    let mut s = Settings::default();
    s.ai.providers.clear();
    s.sanitize();
    assert_eq!(s.ai.providers.len(), 1);
    assert!(!s.ai.providers[0].id.is_empty());
}

#[test]
fn numbers_are_brought_into_range() {
    let mut s = Settings::default();
    s.ai.interval_secs = 1;
    s.ai.min_new_chars = 9_999;
    s.ai.live_window_secs = 1;
    s.asr.temperature = single(7.0);
    s.asr.max_chunk_secs = 1;
    s.audio.mic_gain = single(9.0);
    s.audio.loopback_gain = single(-1.0);
    s.general.theme = "pink".into();
    s.sanitize();
    assert_eq!(s.ai.interval_secs, 5);
    assert_eq!(s.ai.min_new_chars, 5_000);
    assert_eq!(s.ai.live_window_secs, 20);
    assert_eq!(f32::from_bits(s.asr.temperature.bits), 1.0);
    assert_eq!(s.asr.max_chunk_secs, 5);
    assert_eq!(f32::from_bits(s.audio.mic_gain.bits), 4.0);
    assert_eq!(f32::from_bits(s.audio.loopback_gain.bits), 0.0);
    assert_eq!(s.general.theme, "dark");
}

#[test]
fn first_settings_record_and_summarise() {
    let asr = AsrSettings::default();
    assert_eq!(asr.active().unwrap().id, "groq");
    assert!(!asr.live_preview);
    assert!(AudioSettings::default().save_audio);
    assert!(GeneralSettings::default().persist_api_key);
    assert_eq!(VadSettings::default().min_silence_ms, 600);
    assert_eq!(AiSettings::default().interval_secs, 20);
}

#[test]
fn without_services_nothing_is_ready() {
    let mut s = Settings::default();
    assert!(s.asr.ready());
    s.asr.enabled = false;
    assert!(!s.asr.ready());
    s.ai.providers.clear();
    assert!(s.ai.active().is_none());
    assert!(!s.ai.ready());
}

#[test]
fn a_path_without_its_slash_means_the_same_service() {
    for path in ["inference", "/inference", " inference/ ", "/v1/inference"] {
        let p = AsrProvider {
            base_url: "http://localhost:8080".into(),
            transcription_path: path.into(),
            ..Default::default()
        };
        assert!(!p.model_is_required(), "{path}");
        assert!(p.is_usable());
    }
    let p = AsrProvider { transcription_path: "  ".into(), ..Default::default() };
    assert!(p.model_is_required());
}
