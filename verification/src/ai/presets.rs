//! Known services with the OpenAI chat interface.

use vstd::prelude::*;
use crate::num::Single;
use crate::settings::AiProvider;
use crate::settings::AiProviderView;
use crate::settings::BITS_0_2;
use crate::text::same;

verus! {

/// A service to start from.
#[derive(Debug)]
pub struct AiPreset {
    pub id: String,
    pub name: String,
    pub base_url: String,
    pub model: String,
    pub note: String,
    /// Whether the service asks for a key.
    pub needs_key: bool,
    pub json_mode: bool,
}

/// Id, name, address, model, remark, whether a key is needed, whether replies
/// can be limited to JSON.
pub const PRESETS: [(
    &'static str,
    &'static str,
    &'static str,
    &'static str,
    &'static str,
    bool,
    bool,
); 9] = [
    (
        "deepseek",
        "DeepSeek",
        "https://api.deepseek.com/v1",
        "deepseek-chat",
        "中文总结质量好、价格低，推荐首选",
        true,
        true,
    ),
    (
        "openai",
        "OpenAI",
        "https://api.openai.com/v1",
        "gpt-4o-mini",
        "通用能力强，需要能访问 openai.com 的网络",
        true,
        true,
    ),
    (
        "dashscope",
        "阿里通义千问",
        "https://dashscope.aliyuncs.com/compatible-mode/v1",
        "qwen-plus",
        "国内直连，OpenAI 兼容模式",
        true,
        true,
    ),
    (
        "zhipu",
        "智谱 GLM",
        "https://open.bigmodel.cn/api/paas/v4",
        "glm-4-flash",
        "有免费额度，速度快",
        true,
        true,
    ),
    (
        "moonshot",
        "月之暗面 Kimi",
        "https://api.moonshot.cn/v1",
        "moonshot-v1-8k",
        "长文本能力好",
        true,
        true,
    ),
    (
        "siliconflow",
        "硅基流动",
        "https://api.siliconflow.cn/v1",
        "Qwen/Qwen2.5-7B-Instruct",
        "聚合多家开源模型，有免费模型",
        true,
        true,
    ),
    (
        "ollama",
        "本地 Ollama",
        "http://localhost:11434/v1",
        "qwen2.5:7b",
        "完全离线，数据不出本机；需先 ollama pull 模型",
        false,
        true,
    ),
    (
        "vllm",
        "本地 vLLM / LM Studio",
        "http://localhost:8000/v1",
        "Qwen/Qwen2.5-7B-Instruct",
        "本地自建 OpenAI 兼容服务",
        false,
        true,
    ),
    (
        "custom",
        "自定义（OpenAI 兼容）",
        "https://",
        "",
        "任何兼容 /chat/completions 的服务",
        true,
        false,
    ),
];

/// The place of the service with this id, from the `i`-th on; the first service
/// where there is none.
pub open spec fn preset_index(id: Seq<char>, i: int) -> int
    decreases 9 - i,
{
    if i < 0 || i >= 9 {
        0
    } else if PRESETS@[i].0@ == id {
        i
    } else {
        preset_index(id, i + 1)
    }
}

/// The settings that the service at a place starts with.
pub open spec fn provider_at(i: int) -> AiProviderView {
    let p = PRESETS@[i];
    AiProviderView {
        id: p.0@,
        name: p.1@,
        base_url: p.2@,
        api_key: Seq::empty(),
        model: p.3@,
        temperature: Single { bits: BITS_0_2 },
        max_tokens: 1_200,
        json_mode: p.6,
        timeout: 60,
        headers: Seq::empty(),
    }
}

/// The settings for a service by its id; the first service for an unknown id.
pub open spec fn preset_provider(id: Seq<char>) -> AiProviderView {
    provider_at(preset_index(id, 0))
}

/// What is shown of the service at a place.
pub open spec fn shows_preset(p: AiPreset, i: int) -> bool {
    let q = PRESETS@[i];
    &&& p.id@ == q.0@
    &&& p.name@ == q.1@
    &&& p.base_url@ == q.2@
    &&& p.model@ == q.3@
    &&& p.note@ == q.4@
    &&& p.needs_key == q.5
    &&& p.json_mode == q.6
}

pub fn presets() -> (r: Vec<AiPreset>)
    ensures
        r@.len() == 9,
        forall|i: int| 0 <= i < r@.len() ==> shows_preset(#[trigger] r@[i], i),
{
    let mut out: Vec<AiPreset> = Vec::new();
    let mut i: usize = 0;
    while i < 9
        invariant
            i <= 9,
            out@.len() == i,
            forall|k: int| 0 <= k < i ==> shows_preset(#[trigger] out@[k], k),
        decreases 9 - i,
    {
        let p = PRESETS[i];
        out.push(
            AiPreset {
                id: p.0.to_owned(),
                name: p.1.to_owned(),
                base_url: p.2.to_owned(),
                model: p.3.to_owned(),
                note: p.4.to_owned(),
                needs_key: p.5,
                json_mode: p.6,
            },
        );
        i += 1;
    }
    out
}

pub fn provider_from_preset(id: &str) -> (r: AiProvider)
    ensures
        r@ == preset_provider(id@),
{
    let mut found: usize = 0;
    let mut i: usize = 0;
    while i < 9
        invariant_except_break
            i <= 9,
            found == 0,
            preset_index(id@, 0) == preset_index(id@, i as int),
        ensures
            found < 9,
            preset_index(id@, 0) == found,
        decreases 9 - i,
    {
        if same(PRESETS[i].0, id) {
            found = i;
            break;
        }
        i += 1;
    }
    let p = PRESETS[found];
    let r = AiProvider {
        id: p.0.to_owned(),
        name: p.1.to_owned(),
        base_url: p.2.to_owned(),
        api_key: String::new(),
        model: p.3.to_owned(),
        temperature: Single { bits: BITS_0_2 },
        max_tokens: 1_200,
        json_mode: p.6,
        timeout_secs: 60,
        extra_headers: Vec::new(),
    };
    proof {
        assert(r@.headers =~= Seq::empty());
    }
    r
}

proof fn lemma_preset_index(id: Seq<char>, i: int)
    requires
        forall|k: int| 0 <= k < 9 ==> (#[trigger] PRESETS@[k]).0@ != id,
    ensures
        preset_index(id, i) == 0,
    decreases 9 - i,
{
    if 0 <= i < 9 {
        lemma_preset_index(id, i + 1);
    }
}

/// An id that no service has stands for the first one.
pub proof fn law_unknown_preset_falls_back(id: Seq<char>)
    requires
        forall|k: int| 0 <= k < 9 ==> (#[trigger] PRESETS@[k]).0@ != id,
    ensures
        preset_provider(id) == provider_at(0),
{
    lemma_preset_index(id, 0);
}

/// Who picks a service by its id gets what is shown of it: the same id, name, address,
/// model and kind of reply, and no key.
pub proof fn law_picked_services_are_as_shown(shown: AiPreset, i: int, id: Seq<char>)
    requires
        0 <= i < 9,
        shows_preset(shown, i),
        shown.id@ == id,
        forall|k: int| 0 <= k < i ==> (#[trigger] PRESETS@[k]).0@ != id,
    ensures
        preset_provider(id).id == shown.id@,
        preset_provider(id).name == shown.name@,
        preset_provider(id).base_url == shown.base_url@,
        preset_provider(id).model == shown.model@,
        preset_provider(id).json_mode == shown.json_mode,
        preset_provider(id).api_key.len() == 0,
        preset_provider(id).headers.len() == 0,
        preset_provider(id).timeout == 60,
        preset_provider(id).max_tokens == 1_200,
{
    lemma_preset_found(id, i, 0);
}

proof fn lemma_preset_found(id: Seq<char>, i: int, from: int)
    requires
        0 <= from <= i < 9,
        PRESETS@[i].0@ == id,
        forall|k: int| 0 <= k < i ==> (#[trigger] PRESETS@[k]).0@ != id,
    ensures
        preset_index(id, from) == i,
    decreases i - from,
{
    if from < i {
        lemma_preset_found(id, i, from + 1);
    }
}

} // verus!
