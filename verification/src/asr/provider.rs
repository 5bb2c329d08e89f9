//! Known services for speech recognition.

use vstd::prelude::*;
use crate::settings::AsrProvider;
use crate::settings::AsrProviderView;
use crate::text::same;

verus! {

/// A service to start from.
#[derive(Debug)]
pub struct AsrPreset {
    pub id: String,
    pub name: String,
    pub base_url: String,
    pub transcription_path: String,
    pub model: String,
    pub note: String,
    /// Whether the service asks for a key.
    pub needs_key: bool,
    /// Whether the service runs on this machine.
    pub local: bool,
    pub response_format: String,
}

/// Id, name, address, path, model, remark, whether a key is needed, whether it
/// is local.
pub const PRESETS: [(
    &'static str,
    &'static str,
    &'static str,
    &'static str,
    &'static str,
    &'static str,
    bool,
    bool,
); 7] = [
    (
        "groq",
        "Groq（推荐）",
        "https://api.groq.com/openai/v1",
        "/audio/transcriptions",
        "whisper-large-v3-turbo",
        "速度极快、价格低，OpenAI 兼容；中文效果也好",
        true,
        false,
    ),
    (
        "openai",
        "OpenAI",
        "https://api.openai.com/v1",
        "/audio/transcriptions",
        "whisper-1",
        "官方接口，稳定；需要能访问 openai.com 的网络",
        true,
        false,
    ),
    (
        "siliconflow",
        "硅基流动 SiliconFlow",
        "https://api.siliconflow.cn/v1",
        "/audio/transcriptions",
        "FunAudioLLM/SenseVoiceSmall",
        "国内直连，中文识别好，有免费额度",
        true,
        false,
    ),
    (
        "local-whispercpp",
        "本地 whisper.cpp server",
        "http://localhost:8080",
        "/inference",
        "whisper-1",
        "本地完全离线：whisper-server -m ggml-large-v3-turbo.bin --port 8080",
        false,
        true,
    ),
    (
        "local-faster-whisper",
        "本地 faster-whisper-server",
        "http://localhost:8000/v1",
        "/audio/transcriptions",
        "Systran/faster-whisper-large-v3",
        "本地完全离线：docker run -p 8000:8000 fedirz/faster-whisper-server",
        false,
        true,
    ),
    (
        "local-lmstudio",
        "本地 LM Studio / 其它",
        "http://localhost:1234/v1",
        "/audio/transcriptions",
        "whisper-1",
        "任何提供 OpenAI 兼容转写接口的本地服务",
        false,
        true,
    ),
    (
        "custom",
        "自定义（OpenAI 兼容）",
        "https://",
        "/audio/transcriptions",
        "",
        "任何实现了 /audio/transcriptions 的服务，包括自建网关",
        true,
        false,
    ),
];

/// The place of the service with this id, from the `i`-th on; the first service
/// where there is none.
pub open spec fn preset_index(id: Seq<char>, i: int) -> int
    decreases 7 - i,
{
    if i < 0 || i >= 7 {
        0
    } else if PRESETS@[i].0@ == id {
        i
    } else {
        preset_index(id, i + 1)
    }
}

/// The settings that the service at a place starts with.
pub open spec fn provider_at(i: int) -> AsrProviderView {
    let p = PRESETS@[i];
    AsrProviderView {
        id: p.0@,
        name: p.1@,
        base_url: p.2@,
        path: p.3@,
        api_key: Seq::empty(),
        model: p.4@,
        format: "json"@,
        timeout: 120,
        headers: Seq::empty(),
    }
}

/// The settings for a service by its id; the first service for an unknown id.
pub open spec fn preset_provider(id: Seq<char>) -> AsrProviderView {
    provider_at(preset_index(id, 0))
}

/// What is shown of the service at a place.
pub open spec fn shows_preset(p: AsrPreset, i: int) -> bool {
    let q = PRESETS@[i];
    &&& p.id@ == q.0@
    &&& p.name@ == q.1@
    &&& p.base_url@ == q.2@
    &&& p.transcription_path@ == q.3@
    &&& p.model@ == q.4@
    &&& p.note@ == q.5@
    &&& p.needs_key == q.6
    &&& p.local == q.7
    &&& p.response_format@ == "json"@
}

pub fn presets() -> (r: Vec<AsrPreset>)
    ensures
        r@.len() == 7,
        forall|i: int| 0 <= i < r@.len() ==> shows_preset(#[trigger] r@[i], i),
{
    let mut out: Vec<AsrPreset> = Vec::new();
    let mut i: usize = 0;
    while i < 7
        invariant
            i <= 7,
            out@.len() == i,
            forall|k: int| 0 <= k < i ==> shows_preset(#[trigger] out@[k], k),
        decreases 7 - i,
    {
        let p = PRESETS[i];
        out.push(
            AsrPreset {
                id: p.0.to_owned(),
                name: p.1.to_owned(),
                base_url: p.2.to_owned(),
                transcription_path: p.3.to_owned(),
                model: p.4.to_owned(),
                note: p.5.to_owned(),
                needs_key: p.6,
                local: p.7,
                response_format: "json".to_owned(),
            },
        );
        i += 1;
    }
    out
}

pub fn provider_from_preset(id: &str) -> (r: AsrProvider)
    ensures
        r@ == preset_provider(id@),
{
    let mut found: usize = 0;
    let mut i: usize = 0;
    while i < 7
        invariant_except_break
            i <= 7,
            found == 0,
            preset_index(id@, 0) == preset_index(id@, i as int),
        ensures
            found < 7,
            preset_index(id@, 0) == found,
        decreases 7 - i,
    {
        if same(PRESETS[i].0, id) {
            found = i;
            break;
        }
        i += 1;
    }
    let p = PRESETS[found];
    let r = AsrProvider {
        id: p.0.to_owned(),
        name: p.1.to_owned(),
        base_url: p.2.to_owned(),
        transcription_path: p.3.to_owned(),
        api_key: String::new(),
        model: p.4.to_owned(),
        response_format: "json".to_owned(),
        timeout_secs: 120,
        extra_headers: Vec::new(),
    };
    proof {
        assert(r@.headers =~= Seq::empty());
    }
    r
}

proof fn lemma_preset_index(id: Seq<char>, i: int)
    requires
        forall|k: int| 0 <= k < 7 ==> (#[trigger] PRESETS@[k]).0@ != id,
    ensures
        preset_index(id, i) == 0,
    decreases 7 - i,
{
    if 0 <= i < 7 {
        lemma_preset_index(id, i + 1);
    }
}

/// An id that no service has stands for the first one.
pub proof fn law_unknown_preset_falls_back(id: Seq<char>)
    requires
        forall|k: int| 0 <= k < 7 ==> (#[trigger] PRESETS@[k]).0@ != id,
    ensures
        preset_provider(id) == provider_at(0),
{
    lemma_preset_index(id, 0);
}

/// Who picks a service by its id gets what is shown of it: the same id, name, address,
/// path, model and kind of reply, and no key.
pub proof fn law_picked_services_are_as_shown(shown: AsrPreset, i: int, id: Seq<char>)
    requires
        0 <= i < 7,
        shows_preset(shown, i),
        shown.id@ == id,
        forall|k: int| 0 <= k < i ==> (#[trigger] PRESETS@[k]).0@ != id,
    ensures
        preset_provider(id).id == shown.id@,
        preset_provider(id).name == shown.name@,
        preset_provider(id).base_url == shown.base_url@,
        preset_provider(id).path == shown.transcription_path@,
        preset_provider(id).model == shown.model@,
        preset_provider(id).format == shown.response_format@,
        preset_provider(id).api_key.len() == 0,
        preset_provider(id).headers.len() == 0,
        preset_provider(id).timeout == 120,
{
    lemma_preset_found(id, i, 0);
}

proof fn lemma_preset_found(id: Seq<char>, i: int, from: int)
    requires
        0 <= from <= i < 7,
        PRESETS@[i].0@ == id,
        forall|k: int| 0 <= k < i ==> (#[trigger] PRESETS@[k]).0@ != id,
    ensures
        preset_index(id, from) == i,
    decreases i - from,
{
    if from < i {
        lemma_preset_found(id, i, from + 1);
    }
}

} // verus!
