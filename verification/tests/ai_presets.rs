//! Language model services.

use meeting_hear::ai::presets::{presets, provider_from_preset};

#[test]
fn presets_presets_are_unique_and_usable() {
    let list = presets();
    assert!(list.len() >= 5);
    let mut ids: Vec<&str> = list.iter().map(|p| p.id.as_str()).collect();
    ids.sort_unstable();
    let before = ids.len();
    ids.dedup();
    assert_eq!(ids.len(), before, "预设 id 不应重复");
    for p in &list {
        assert!(!p.name.is_empty());
        assert!(p.base_url.starts_with("http"), "{} 的 base_url 不合法", p.id);
    }
}

#[test]
fn unknown_preset_falls_back() {
    let p = provider_from_preset("不存在的服务商");
    assert_eq!(p.id, "deepseek");
}

#[test]
fn ollama_preset_needs_no_key() {
    let list = presets();
    let ollama = list.iter().find(|p| p.id == "ollama").unwrap();
    assert!(!ollama.needs_key);
    assert_eq!(ollama.base_url, "http://localhost:11434/v1");
    assert_eq!(ollama.model, "qwen2.5:7b");
}
