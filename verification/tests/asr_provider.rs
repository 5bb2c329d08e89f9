//! Recognition services.

use meeting_hear::asr::provider::{presets, provider_from_preset};

#[test]
fn provider_presets_are_unique_and_usable() {
    let list = presets();
    assert!(list.len() >= 5);
    let mut ids: Vec<&str> = list.iter().map(|p| p.id.as_str()).collect();
    ids.sort_unstable();
    let before = ids.len();
    ids.dedup();
    assert_eq!(ids.len(), before, "预设 id 不应重复");

    for p in &list {
        assert!(!p.name.is_empty());
        assert!(p.base_url.starts_with("http"), "{} 的 base_url 不合法", p.id);
        assert!(p.transcription_path.starts_with('/'), "{} 的路径不合法", p.id);
        assert!(!p.note.is_empty());
    }
}

#[test]
fn local_presets_need_no_key() {
    for p in presets().iter().filter(|p| p.local) {
        assert!(!p.needs_key, "本地服务不应要求 api key：{}", p.id);
    }
}

#[test]
fn every_preset_builds_a_valid_endpoint() {
    for preset in presets() {
        let provider = provider_from_preset(&preset.id);
        let endpoint = provider.endpoint();
        assert!(endpoint.starts_with("http"), "{} 生成了非法地址 {endpoint}", preset.id);
        assert!(
            endpoint.ends_with(&preset.transcription_path),
            "{} 的地址没带上路径：{endpoint}",
            preset.id
        );
    }
}

#[test]
fn unknown_preset_falls_back_to_default() {
    let p = provider_from_preset("不存在的服务商");
    assert_eq!(p.id, "groq");
    assert!(p.is_usable());
}

#[test]
fn provider_is_usable_requires_base_url_and_model() {
    let mut p = provider_from_preset("openai");
    assert!(p.is_usable());
    p.model.clear();
    assert!(!p.is_usable());
    p.model = "whisper-1".into();
    p.base_url.clear();
    assert!(!p.is_usable());
}
