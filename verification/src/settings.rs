//! Configuration.
//!
//! Settings come from a file that people edit, so each group of settings can
//! bring itself into range.

use vstd::prelude::*;
use vstd::string::*;
use crate::ai::presets::preset_provider as ai_preset;
use crate::asr::provider::preset_provider as asr_preset;
use crate::num::Single;
use crate::util::fresh_id;
use crate::util::simple_id;
use crate::text::after_text;
use crate::text::blank;
use crate::text::decimal;
use crate::text::decimal_of;
use crate::text::ends_with;
use crate::text::is_blank;
use crate::text::rest_after;
use crate::text::same;
use crate::text::strip_right;
use crate::text::strip_right_by;
use crate::text::strip_suffix;
use crate::text::trim;
use crate::text::trimmed;
use crate::text::until;
use crate::text::until_by;

verus! {

pub const SETTINGS_VERSION: u32 = 1;

/// Bit patterns of single precision numbers.
pub const BITS_0: u32 = 0;

pub const BITS_0_2: u32 = 0x3e4c_cccd;

pub const BITS_0_8: u32 = 0x3f4c_cccd;

pub const BITS_1: u32 = 0x3f80_0000;

pub const BITS_1_6: u32 = 0x3fcc_cccd;

pub const BITS_2: u32 = 0x4000_0000;

pub const BITS_4: u32 = 0x4080_0000;

pub const BITS_9: u32 = 0x4110_0000;

pub const BITS_30: u32 = 0x41f0_0000;

// ---------------------------------------------------------------------------
// Addresses
// ---------------------------------------------------------------------------

pub open spec fn slash(c: char) -> bool {
    c == '/'
}

fn is_slash(c: char) -> (r: bool)
    ensures
        r == slash(c),
{
    c == '/'
}

/// A text without trailing slashes.
pub open spec fn without_slashes(s: Seq<char>) -> Seq<char> {
    strip_right(s, |c: char| slash(c))
}

/// A text without trailing slashes.
fn trim_slashes<'a>(s: &'a str) -> (r: &'a str)
    ensures
        r@ == without_slashes(s@),
{
    strip_right_by(s, is_slash, Ghost(|c: char| slash(c)))
}

/// The root of a service: its address without white space, trailing slashes and
/// the first of the three paths that it ends with, which people tend to paste
/// along.
pub open spec fn root_of(base: Seq<char>, a: Seq<char>, b: Seq<char>, c: Seq<char>) -> Seq<char> {
    let u = without_slashes(trimmed(base));
    if a.is_suffix_of(u) {
        without_slashes(u.take(u.len() - a.len()))
    } else if b.is_suffix_of(u) {
        without_slashes(u.take(u.len() - b.len()))
    } else if c.is_suffix_of(u) {
        without_slashes(u.take(u.len() - c.len()))
    } else {
        u
    }
}

fn find_root<'a>(base: &'a str, a: &str, b: &str, c: &str) -> (r: &'a str)
    ensures
        r@ == root_of(base@, a@, b@, c@),
{
    let u = trim_slashes(trim(base));
    if let Some(rest) = strip_suffix(u, a) {
        return trim_slashes(rest);
    }
    if let Some(rest) = strip_suffix(u, b) {
        return trim_slashes(rest);
    }
    if let Some(rest) = strip_suffix(u, c) {
        return trim_slashes(rest);
    }
    u
}

pub open spec fn ends_host(c: char) -> bool {
    c == '/' || c == '?' || c == '#'
}

fn is_host_end(c: char) -> (r: bool)
    ensures
        r == ends_host(c),
{
    c == '/' || c == '?' || c == '#'
}

/// The host of an address; nothing where no scheme precedes it.
pub open spec fn host_in(root: Seq<char>) -> Seq<char> {
    match after_text(root, "://"@) {
        Some(rest) => trimmed(until(rest, |c: char| ends_host(c))),
        None => Seq::empty(),
    }
}

fn find_host(root: &str) -> (r: String)
    ensures
        r@ == host_in(root@),
{
    proof {
        reveal_strlit("://");
    }
    match rest_after(root, "://") {
        Some(rest) => trim(
            until_by(rest, is_host_end, Ghost(|c: char| ends_host(c))),
        ).to_owned(),
        None => String::new(),
    }
}

pub open spec fn header_views(h: Seq<(String, String)>) -> Seq<(Seq<char>, Seq<char>)> {
    h.map_values(|x: (String, String)| (x.0@, x.1@))
}

/// A copy of some headers.
pub(crate) fn copy_headers(h: &Vec<(String, String)>) -> (r: Vec<(String, String)>)
    ensures
        header_views(r@) == header_views(h@),
{
    let n: usize = h.len();
    let mut out: Vec<(String, String)> = Vec::new();
    let mut i: usize = 0;
    while i < n
        invariant
            i <= n == h@.len(),
            out@.len() == i,
            forall|k: int|
                0 <= k < i ==> (#[trigger] out@[k]).0@ == h@[k].0@ && out@[k].1@ == h@[k].1@,
        decreases n - i,
    {
        out.push((h[i].0.clone(), h[i].1.clone()));
        i += 1;
    }
    proof {
        assert(header_views(out@) =~= header_views(h@));
    }
    out
}

/// `n` forced into the range from `lo` to `hi`.
pub open spec fn clamped(n: u32, lo: u32, hi: u32) -> u32 {
    if n < lo {
        lo
    } else if n > hi {
        hi
    } else {
        n
    }
}

fn clamp(n: u32, lo: u32, hi: u32) -> (r: u32)
    ensures
        r == clamped(n, lo, hi),
{
    if n < lo {
        lo
    } else if n > hi {
        hi
    } else {
        n
    }
}

// ---------------------------------------------------------------------------
// Speech recognition
// ---------------------------------------------------------------------------

/// A service that recognises speech.
#[derive(Debug)]
pub struct AsrProvider {
    pub id: String,
    pub name: String,
    /// Root address, such as `https://api.openai.com/v1`.
    pub base_url: String,
    /// Path of the interface below the root.
    pub transcription_path: String,
    pub api_key: String,
    pub model: String,
    /// `json`, `verbose_json` or `text`.
    pub response_format: String,
    pub timeout_secs: u32,
    pub extra_headers: Vec<(String, String)>,
}

#[verifier::ext_equal]
pub ghost struct AsrProviderView {
    pub id: Seq<char>,
    pub name: Seq<char>,
    pub base_url: Seq<char>,
    pub path: Seq<char>,
    pub api_key: Seq<char>,
    pub model: Seq<char>,
    pub format: Seq<char>,
    pub timeout: u32,
    pub headers: Seq<(Seq<char>, Seq<char>)>,
}

impl View for AsrProvider {
    type V = AsrProviderView;

    open spec fn view(&self) -> AsrProviderView {
        AsrProviderView {
            id: self.id@,
            name: self.name@,
            base_url: self.base_url@,
            path: self.transcription_path@,
            api_key: self.api_key@,
            model: self.model@,
            format: self.response_format@,
            timeout: self.timeout_secs,
            headers: header_views(self.extra_headers@),
        }
    }
}

impl AsrProviderView {
    pub open spec fn root(self) -> Seq<char> {
        root_of(
            self.base_url,
            "/audio/transcriptions"@,
            "/audio/translations"@,
            "/inference"@,
        )
    }

    /// The path of the interface, with the slash that it begins with.
    pub open spec fn interface(self) -> Seq<char> {
        let p = trimmed(self.path);
        if p.len() == 0 {
            "/audio/transcriptions"@
        } else if p[0] == '/' {
            p
        } else {
            "/"@ + p
        }
    }

    pub open spec fn endpoint(self) -> Seq<char> {
        self.root() + self.interface()
    }

    pub open spec fn host(self) -> Seq<char> {
        host_in(self.root())
    }

    /// Whether the service looks at the name of a model. A whisper.cpp server
    /// uses the one it was started with.
    pub open spec fn needs_model(self) -> bool {
        !"/inference"@.is_suffix_of(without_slashes(self.interface()))
    }

    pub open spec fn usable(self) -> bool {
        self.host().len() > 0 && (!self.needs_model() || !blank(self.model))
    }

    pub open spec fn sanitized(self) -> AsrProviderView {
        AsrProviderView {
            timeout: clamped(self.timeout, 5, 600),
            name: if blank(self.name) {
                "未命名服务"@
            } else {
                self.name
            },
            format: if self.format == "json"@ || self.format == "verbose_json"@ || self.format
                == "text"@ {
                self.format
            } else {
                "json"@
            },
            ..self
        }
    }
}

impl Default for AsrProvider {
    fn default() -> (r: AsrProvider)
        ensures
            r@ == (AsrProviderView {
                id: "custom"@,
                name: "自定义"@,
                base_url: Seq::empty(),
                path: "/audio/transcriptions"@,
                api_key: Seq::empty(),
                model: Seq::empty(),
                format: "json"@,
                timeout: 120,
                headers: Seq::empty(),
            }),
    {
        let r = AsrProvider {
            id: "custom".to_owned(),
            name: "自定义".to_owned(),
            base_url: String::new(),
            transcription_path: "/audio/transcriptions".to_owned(),
            api_key: String::new(),
            model: String::new(),
            response_format: "json".to_owned(),
            timeout_secs: 120,
            extra_headers: Vec::new(),
        };
        proof {
            assert(r@.headers =~= Seq::empty());
        }
        r
    }
}

impl AsrProvider {
    /// The root address of the service.
    pub fn root_url(&self) -> (r: String)
        ensures
            r@ == self@.root(),
    {
        find_root(
            self.base_url.as_str(),
            "/audio/transcriptions",
            "/audio/translations",
            "/inference",
        ).to_owned()
    }

    /// The path of the interface.
    fn interface_path(&self) -> (r: String)
        ensures
            r@ == self@.interface(),
    {
        let p = trim(self.transcription_path.as_str());
        if p.unicode_len() == 0 {
            "/audio/transcriptions".to_owned()
        } else if p.get_char(0) == '/' {
            p.to_owned()
        } else {
            let mut s = "/".to_owned();
            s.append(p);
            s
        }
    }

    /// The whole address of the interface.
    pub fn endpoint(&self) -> (r: String)
        ensures
            r@ == self@.endpoint(),
    {
        let mut s = self.root_url();
        s.append(self.interface_path().as_str());
        s
    }

    /// The host; empty where the address is only a placeholder.
    pub fn host(&self) -> (r: String)
        ensures
            r@ == self@.host(),
    {
        find_host(self.root_url().as_str())
    }

    pub fn model_is_required(&self) -> (r: bool)
        ensures
            r == self@.needs_model(),
    {
        !ends_with(trim_slashes(self.interface_path().as_str()), "/inference")
    }

    /// Whether the service can be called.
    pub fn is_usable(&self) -> (r: bool)
        ensures
            r == self@.usable(),
    {
        self.host().as_str().unicode_len() > 0 && (!self.model_is_required() || !is_blank(
            self.model.as_str(),
        ))
    }

    /// A copy of the settings.
    pub fn duplicate(&self) -> (r: AsrProvider)
        ensures
            r@ == self@,
    {
        AsrProvider {
            id: self.id.clone(),
            name: self.name.clone(),
            base_url: self.base_url.clone(),
            transcription_path: self.transcription_path.clone(),
            api_key: self.api_key.clone(),
            model: self.model.clone(),
            response_format: self.response_format.clone(),
            timeout_secs: self.timeout_secs,
            extra_headers: copy_headers(&self.extra_headers),
        }
    }

    /// The settings brought into range.
    pub fn sanitized(self) -> (r: AsrProvider)
        ensures
            r@ == self@.sanitized(),
    {
        let mut p = self;
        p.timeout_secs = clamp(p.timeout_secs, 5, 600);
        if is_blank(p.name.as_str()) {
            p.name = "未命名服务".to_owned();
        }
        let f = p.response_format.as_str();
        let known: bool = same(f, "json") || same(f, "verbose_json") || same(f, "text");
        if !known {
            p.response_format = "json".to_owned();
        }
        p
    }
}

// ---------------------------------------------------------------------------
// Voice activity detection
// ---------------------------------------------------------------------------

/// How speech is told from silence.
#[derive(Clone, Copy, Debug)]
pub struct VadSettings {
    /// How many decibels above the noise floor count as speech.
    pub energy_threshold_db: Single,
    pub min_speech_ms: u32,
    pub min_silence_ms: u32,
    pub max_utterance_ms: u32,
    pub speech_pad_ms: u32,
}

/// The settings to begin with.
pub open spec fn default_vad() -> VadSettings {
    VadSettings {
        energy_threshold_db: Single { bits: BITS_9 },
        min_speech_ms: 250,
        min_silence_ms: 600,
        max_utterance_ms: 25_000,
        speech_pad_ms: 200,
    }
}

impl Default for VadSettings {
    fn default() -> (r: VadSettings)
        ensures
            r == default_vad(),
    {
        VadSettings {
            energy_threshold_db: Single { bits: BITS_9 },
            min_speech_ms: 250,
            min_silence_ms: 600,
            max_utterance_ms: 25_000,
            speech_pad_ms: 200,
        }
    }
}

impl VadSettings {
    pub open spec fn in_range(self) -> VadSettings {
        let longest = clamped(self.max_utterance_ms, 3_000, 60_000);
        let silence = clamped(self.min_silence_ms, 150, 5_000);
        VadSettings {
            energy_threshold_db: self.energy_threshold_db.clamped(
                Single { bits: BITS_2 },
                Single { bits: BITS_30 },
            ),
            min_speech_ms: clamped(self.min_speech_ms, 50, 3_000),
            min_silence_ms: silence,
            max_utterance_ms: if longest <= silence {
                (silence + 2_000) as u32
            } else {
                longest
            },
            speech_pad_ms: clamped(self.speech_pad_ms, 0, 1_000),
        }
    }

    /// Brings the settings into range, and makes an utterance longer than the
    /// silence that ends it.
    pub fn sanitize(&mut self)
        ensures
            *final(self) == old(self).in_range(),
    {
        self.energy_threshold_db = self.energy_threshold_db.clamp(
            Single { bits: BITS_2 },
            Single { bits: BITS_30 },
        );
        self.min_speech_ms = clamp(self.min_speech_ms, 50, 3_000);
        self.min_silence_ms = clamp(self.min_silence_ms, 150, 5_000);
        self.max_utterance_ms = clamp(self.max_utterance_ms, 3_000, 60_000);
        self.speech_pad_ms = clamp(self.speech_pad_ms, 0, 1_000);
        if self.max_utterance_ms <= self.min_silence_ms {
            self.max_utterance_ms = self.min_silence_ms + 2_000;
        }
    }
}

/// Settings for detection come out in range, whatever was filled in, and a
/// second pass changes nothing.
pub proof fn law_vad_settings_in_range(v: VadSettings)
    ensures
        ({
            let r = v.in_range();
            &&& r.energy_threshold_db.within(Single { bits: BITS_2 }, Single { bits: BITS_30 })
            &&& 50 <= r.min_speech_ms <= 3_000
            &&& 150 <= r.min_silence_ms <= 5_000
            &&& 3_000 <= r.max_utterance_ms <= 60_000
            &&& r.speech_pad_ms <= 1_000
            &&& r.max_utterance_ms > r.min_silence_ms
            &&& r.in_range() == r
        }),
{
}

// ---------------------------------------------------------------------------
// Language model
// ---------------------------------------------------------------------------

/// A service with the OpenAI chat interface.
#[derive(Debug)]
pub struct AiProvider {
    pub id: String,
    pub name: String,
    pub base_url: String,
    pub api_key: String,
    pub model: String,
    pub temperature: Single,
    pub max_tokens: u32,
    pub json_mode: bool,
    pub timeout_secs: u32,
    pub extra_headers: Vec<(String, String)>,
}

#[verifier::ext_equal]
pub ghost struct AiProviderView {
    pub id: Seq<char>,
    pub name: Seq<char>,
    pub base_url: Seq<char>,
    pub api_key: Seq<char>,
    pub model: Seq<char>,
    pub temperature: Single,
    pub max_tokens: u32,
    pub json_mode: bool,
    pub timeout: u32,
    pub headers: Seq<(Seq<char>, Seq<char>)>,
}

impl View for AiProvider {
    type V = AiProviderView;

    open spec fn view(&self) -> AiProviderView {
        AiProviderView {
            id: self.id@,
            name: self.name@,
            base_url: self.base_url@,
            api_key: self.api_key@,
            model: self.model@,
            temperature: self.temperature,
            max_tokens: self.max_tokens,
            json_mode: self.json_mode,
            timeout: self.timeout_secs,
            headers: header_views(self.extra_headers@),
        }
    }
}

impl AiProviderView {
    pub open spec fn root(self) -> Seq<char> {
        root_of(self.base_url, "/chat/completions"@, "/completions"@, "/models"@)
    }

    pub open spec fn host(self) -> Seq<char> {
        host_in(self.root())
    }

    pub open spec fn usable(self) -> bool {
        self.host().len() > 0 && !blank(self.model)
    }

    pub open spec fn sanitized(self) -> AiProviderView {
        AiProviderView {
            temperature: self.temperature.clamped(
                Single { bits: BITS_0 },
                Single { bits: BITS_2 },
            ),
            max_tokens: clamped(self.max_tokens, 64, 32_000),
            timeout: clamped(self.timeout, 5, 600),
            name: if blank(self.name) {
                "未命名服务"@
            } else {
                self.name
            },
            ..self
        }
    }
}

impl Default for AiProvider {
    fn default() -> (r: AiProvider)
        ensures
            r@ == (AiProviderView {
                id: "custom"@,
                name: "自定义"@,
                base_url: Seq::empty(),
                api_key: Seq::empty(),
                model: Seq::empty(),
                temperature: Single { bits: BITS_0_2 },
                max_tokens: 1_200,
                json_mode: false,
                timeout: 60,
                headers: Seq::empty(),
            }),
    {
        let r = AiProvider {
            id: "custom".to_owned(),
            name: "自定义".to_owned(),
            base_url: String::new(),
            api_key: String::new(),
            model: String::new(),
            temperature: Single { bits: BITS_0_2 },
            max_tokens: 1_200,
            json_mode: false,
            timeout_secs: 60,
            extra_headers: Vec::new(),
        };
        proof {
            assert(r@.headers =~= Seq::empty());
        }
        r
    }
}

impl AiProvider {
    /// The root address of the service.
    pub fn root_url(&self) -> (r: String)
        ensures
            r@ == self@.root(),
    {
        find_root(self.base_url.as_str(), "/chat/completions", "/completions", "/models").to_owned()
    }

    pub fn chat_url(&self) -> (r: String)
        ensures
            r@ == self@.root() + "/chat/completions"@,
    {
        let mut s = self.root_url();
        s.append("/chat/completions");
        s
    }

    pub fn models_url(&self) -> (r: String)
        ensures
            r@ == self@.root() + "/models"@,
    {
        let mut s = self.root_url();
        s.append("/models");
        s
    }

    /// The host; empty where the address is only a placeholder.
    pub fn host(&self) -> (r: String)
        ensures
            r@ == self@.host(),
    {
        find_host(self.root_url().as_str())
    }

    /// Whether the service can be called.
    pub fn is_usable(&self) -> (r: bool)
        ensures
            r == self@.usable(),
    {
        self.host().as_str().unicode_len() > 0 && !is_blank(self.model.as_str())
    }

    /// A copy of the settings.
    pub fn duplicate(&self) -> (r: AiProvider)
        ensures
            r@ == self@,
    {
        AiProvider {
            id: self.id.clone(),
            name: self.name.clone(),
            base_url: self.base_url.clone(),
            api_key: self.api_key.clone(),
            model: self.model.clone(),
            temperature: self.temperature,
            max_tokens: self.max_tokens,
            json_mode: self.json_mode,
            timeout_secs: self.timeout_secs,
            extra_headers: copy_headers(&self.extra_headers),
        }
    }

    /// The settings brought into range.
    pub fn sanitized(self) -> (r: AiProvider)
        ensures
            r@ == self@.sanitized(),
    {
        let mut p = self;
        p.temperature = p.temperature.clamp(Single { bits: BITS_0 }, Single { bits: BITS_2 });
        p.max_tokens = clamp(p.max_tokens, 64, 32_000);
        p.timeout_secs = clamp(p.timeout_secs, 5, 600);
        if is_blank(p.name.as_str()) {
            p.name = "未命名服务".to_owned();
        }
        p
    }
}

// ---------------------------------------------------------------------------
// Groups of settings
// ---------------------------------------------------------------------------

#[derive(Debug)]
pub struct AsrSettings {
    pub enabled: bool,
    pub providers: Vec<AsrProvider>,
    pub active_provider_id: String,
    /// Whether the last sentence goes along with a request, so that names and
    /// terms are spelt alike.
    pub context_prompt: bool,
    pub temperature: Single,
    /// Whether an utterance is shown while it is spoken. Each preview is a
    /// request of its own.
    pub live_preview: bool,
    /// The most seconds of audio in one request.
    pub max_chunk_secs: u32,
}

pub open spec fn asr_provider_views(v: Seq<AsrProvider>) -> Seq<AsrProviderView> {
    v.map_values(|p: AsrProvider| p@)
}

#[verifier::ext_equal]
pub ghost struct AsrSettingsView {
    pub enabled: bool,
    pub providers: Seq<AsrProviderView>,
    pub active: Seq<char>,
    pub context_prompt: bool,
    pub temperature: Single,
    pub live_preview: bool,
    pub max_chunk_secs: u32,
}

impl View for AsrSettings {
    type V = AsrSettingsView;

    open spec fn view(&self) -> AsrSettingsView {
        AsrSettingsView {
            enabled: self.enabled,
            providers: asr_provider_views(self.providers@),
            active: self.active_provider_id@,
            context_prompt: self.context_prompt,
            temperature: self.temperature,
            live_preview: self.live_preview,
            max_chunk_secs: self.max_chunk_secs,
        }
    }
}

impl AsrSettingsView {
    /// Whether some service has the active id.
    pub open spec fn names(self, i: int) -> bool {
        0 <= i < self.providers.len() && self.providers[i].id == self.active
    }

    /// The place of the service in use: the first with the active id, or the
    /// first of all.
    pub open spec fn active_index(self, from: int) -> Option<int>
        decreases self.providers.len() - from,
    {
        if from < 0 || from >= self.providers.len() {
            if self.providers.len() > 0 {
                Some(0)
            } else {
                None
            }
        } else if self.providers[from].id == self.active {
            Some(from)
        } else {
            self.active_index(from + 1)
        }
    }

    pub open spec fn ready(self) -> bool {
        self.enabled && (self.active_index(0) matches Some(i) && self.providers[i].usable())
    }

    /// At least one service.
    pub open spec fn some_providers(self) -> Seq<AsrProviderView> {
        if self.providers.len() == 0 {
            seq![asr_preset("groq"@)]
        } else {
            self.providers
        }
    }

    /// A service with an id, brought into range.
    pub open spec fn settled(p: AsrProviderView, i: int) -> AsrProviderView {
        (AsrProviderView {
            id: if blank(p.id) {
                "asr"@ + decimal(i as nat)
            } else {
                p.id
            },
            ..p
        }).sanitized()
    }

    pub open spec fn in_range(self) -> AsrSettingsView {
        let all = AsrSettingsView { providers: self.some_providers(), ..self };
        AsrSettingsView {
            temperature: self.temperature.clamped(
                Single { bits: BITS_0 },
                Single { bits: BITS_1 },
            ),
            max_chunk_secs: clamped(self.max_chunk_secs, 5, 120),
            providers: Seq::new(
                all.providers.len(),
                |i: int| AsrSettingsView::settled(all.providers[i], i),
            ),
            active: if exists|i: int| all.names(i) {
                self.active
            } else {
                all.providers[0].id
            },
            ..self
        }
    }
}

/// The settings to begin with.
pub open spec fn default_asr() -> AsrSettingsView {
    AsrSettingsView {
        enabled: true,
        providers: seq![asr_preset("groq"@)],
        active: asr_preset("groq"@).id,
        context_prompt: true,
        temperature: Single { bits: BITS_0 },
        live_preview: false,
        max_chunk_secs: 25,
    }
}

impl Default for AsrSettings {
    fn default() -> (r: AsrSettings)
        ensures
            r@ == default_asr(),
    {
        let p = crate::asr::provider::provider_from_preset("groq");
        let active = p.id.clone();
        let mut providers: Vec<AsrProvider> = Vec::new();
        providers.push(p);
        let r = AsrSettings {
            enabled: true,
            providers,
            active_provider_id: active,
            context_prompt: true,
            temperature: Single { bits: BITS_0 },
            live_preview: false,
            max_chunk_secs: 25,
        };
        proof {
            assert(r@.providers =~= seq![asr_preset("groq"@)]);
        }
        r
    }
}

impl AsrSettings {
    /// The service in use.
    pub fn active(&self) -> (r: Option<&AsrProvider>)
        ensures
            match r {
                Some(p) => self@.active_index(0) matches Some(i) && 0 <= i < self.providers@.len()
                    && *p == self.providers@[i] && p@ == self@.providers[i],
                None => self@.active_index(0) is None,
            },
    {
        let n: usize = self.providers.len();
        let mut i: usize = 0;
        while i < n
            invariant
                i <= n == self.providers@.len(),
                self@.active_index(0) == self@.active_index(i as int),
            decreases n - i,
        {
            proof {
                assert(self@.providers[i as int] == self.providers@[i as int]@);
            }
            if same(self.providers[i].id.as_str(), self.active_provider_id.as_str()) {
                return Some(&self.providers[i]);
            }
            i += 1;
        }
        if n > 0 {
            Some(&self.providers[0])
        } else {
            None
        }
    }

    /// Whether transcription can begin.
    pub fn ready(&self) -> (r: bool)
        ensures
            r == self@.ready(),
    {
        if !self.enabled {
            return false;
        }
        match self.active() {
            Some(p) => p.is_usable(),
            None => false,
        }
    }

    /// Brings the settings into range.
    pub fn sanitize(&mut self)
        ensures
            final(self)@ == old(self)@.in_range(),
    {
        let ghost before = self@;
        self.temperature = self.temperature.clamp(
            Single { bits: BITS_0 },
            Single { bits: BITS_1 },
        );
        self.max_chunk_secs = clamp(self.max_chunk_secs, 5, 120);
        if self.providers.len() == 0 {
            let mut providers: Vec<AsrProvider> = Vec::new();
            providers.push(crate::asr::provider::provider_from_preset("groq"));
            self.providers = providers;
            proof {
                assert(self@.providers =~= seq![asr_preset("groq"@)]);
            }
        }
        let ghost all = AsrSettingsView { providers: before.some_providers(), ..before };
        proof {
            assert(self@.providers == all.providers);
        }
        let n: usize = self.providers.len();
        let mut named: bool = false;
        let mut providers: Vec<AsrProvider> = Vec::new();
        let mut i: usize = 0;
        while i < n
            invariant
                i <= n == self.providers@.len(),
                self@.providers == all.providers,
                self@.active == all.active,
                named == exists|k: int| 0 <= k < i && all.names(k),
                providers@.len() == i,
                forall|k: int|
                    0 <= k < i ==> (#[trigger] providers@[k])@ == AsrSettingsView::settled(
                        all.providers[k],
                        k,
                    ),
            decreases n - i,
        {
            proof {
                assert(self@.providers[i as int] == self.providers@[i as int]@);
            }
            if same(self.providers[i].id.as_str(), self.active_provider_id.as_str()) {
                proof {
                    assert(all.names(i as int));
                }
                named = true;
            }
            let mut p = self.providers[i].duplicate();
            if is_blank(p.id.as_str()) {
                let mut id = "asr".to_owned();
                id.append(decimal_of(i as u128).as_str());
                p.id = id;
            }
            providers.push(p.sanitized());
            i += 1;
        }
        if !named {
            self.active_provider_id = self.providers[0].id.clone();
            proof {
                assert(self@.providers[0] == self.providers@[0]@);
            }
        }
        self.providers = providers;
        proof {
            assert(self@.providers =~= before.in_range().providers);
            if named {
                let k = choose|k: int| 0 <= k < n && all.names(k);
                assert(all.names(k));
            }
        }
    }
}

/// Settings for recognition come out in range: at least one service, each with
/// an id, a name, a known format and a sensible timeout.
pub proof fn law_asr_settings_in_range(s: AsrSettingsView)
    ensures
        ({
            let r = s.in_range();
            &&& r.temperature.within(Single { bits: BITS_0 }, Single { bits: BITS_1 })
            &&& 5 <= r.max_chunk_secs <= 120
            &&& r.providers.len() > 0
            &&& forall|i: int|
                0 <= i < r.providers.len() ==> {
                    let p = #[trigger] r.providers[i];
                    &&& !blank(p.id)
                    &&& !blank(p.name)
                    &&& 5 <= p.timeout <= 600
                    &&& (p.format == "json"@ || p.format == "verbose_json"@ || p.format == "text"@)
                }
        }),
{
    let r = s.in_range();
    reveal_strlit("asr");
    reveal_strlit("未命名服务");
    assert("asr"@[0] == 'a');
    assert("未命名服务"@[0] == '未');
    assert(!crate::text::space('a') && !crate::text::space('未'));
    let all = s.some_providers();
    assert forall|i: int| 0 <= i < r.providers.len() implies {
        let p = #[trigger] r.providers[i];
        &&& !blank(p.id)
        &&& !blank(p.name)
        &&& 5 <= p.timeout <= 600
        &&& (p.format == "json"@ || p.format == "verbose_json"@ || p.format == "text"@)
    } by {
        let given = all[i];
        let p = r.providers[i];
        if blank(given.id) {
            assert(p.id[0] == 'a');
        }
        if blank(given.name) {
            assert(p.name[0] == '未');
        }
    }
}

#[derive(Debug)]
pub struct AiSettings {
    pub enabled: bool,
    pub providers: Vec<AiProvider>,
    pub active_provider_id: String,
    pub auto_summary: bool,
    pub interval_secs: u32,
    pub min_new_chars: u32,
    pub live_window_secs: u32,
    pub max_context_chars: u32,
    pub final_report_on_stop: bool,
    /// What is recorded, as [`crate::ai::prompts::SummaryMode`] reads it.
    pub summary_mode: String,
}

pub open spec fn ai_provider_views(v: Seq<AiProvider>) -> Seq<AiProviderView> {
    v.map_values(|p: AiProvider| p@)
}

#[verifier::ext_equal]
pub ghost struct AiSettingsView {
    pub enabled: bool,
    pub providers: Seq<AiProviderView>,
    pub active: Seq<char>,
    pub auto_summary: bool,
    pub interval_secs: u32,
    pub min_new_chars: u32,
    pub live_window_secs: u32,
    pub max_context_chars: u32,
    pub final_report_on_stop: bool,
    pub summary_mode: Seq<char>,
}

impl View for AiSettings {
    type V = AiSettingsView;

    open spec fn view(&self) -> AiSettingsView {
        AiSettingsView {
            enabled: self.enabled,
            providers: ai_provider_views(self.providers@),
            active: self.active_provider_id@,
            auto_summary: self.auto_summary,
            interval_secs: self.interval_secs,
            min_new_chars: self.min_new_chars,
            live_window_secs: self.live_window_secs,
            max_context_chars: self.max_context_chars,
            final_report_on_stop: self.final_report_on_stop,
            summary_mode: self.summary_mode@,
        }
    }
}

impl AiSettingsView {
    /// Whether the service at a place has the active id.
    pub open spec fn names(self, i: int) -> bool {
        0 <= i < self.providers.len() && self.providers[i].id == self.active
    }

    /// The place of the service in use: the first with the active id, or the
    /// first of all.
    pub open spec fn active_index(self, from: int) -> Option<int>
        decreases self.providers.len() - from,
    {
        if from < 0 || from >= self.providers.len() {
            if self.providers.len() > 0 {
                Some(0)
            } else {
                None
            }
        } else if self.providers[from].id == self.active {
            Some(from)
        } else {
            self.active_index(from + 1)
        }
    }

    pub open spec fn ready(self) -> bool {
        self.enabled && (self.active_index(0) matches Some(i) && self.providers[i].usable())
    }

    /// At least one service.
    pub open spec fn some_providers(self) -> Seq<AiProviderView> {
        if self.providers.len() == 0 {
            seq![ai_preset("deepseek"@)]
        } else {
            self.providers
        }
    }

    /// A service with an id; one that has none gets a fresh one.
    pub open spec fn identified(p: AiProviderView, fresh: Seq<char>) -> AiProviderView {
        AiProviderView {
            id: if blank(p.id) {
                "p"@ + fresh
            } else {
                p.id
            },
            ..p
        }
    }

    pub open spec fn in_range(self, fresh: Seq<Seq<char>>) -> AiSettingsView {
        let all = AiSettingsView { providers: self.some_providers(), ..self };
        AiSettingsView {
            interval_secs: clamped(self.interval_secs, 5, 600),
            min_new_chars: clamped(self.min_new_chars, 0, 5_000),
            live_window_secs: clamped(self.live_window_secs, 20, 600),
            max_context_chars: clamped(self.max_context_chars, 500, 60_000),
            providers: Seq::new(
                all.providers.len(),
                |i: int| AiSettingsView::identified(all.providers[i], fresh[i]),
            ),
            active: if exists|i: int| all.names(i) {
                self.active
            } else {
                all.providers[0].id
            },
            ..self
        }
    }
}

/// Random ids, one for each of `n` services.
pub open spec fn fresh_ids(fresh: Seq<Seq<char>>, n: nat) -> bool {
    fresh.len() == n && forall|i: int| 0 <= i < n ==> simple_id(#[trigger] fresh[i])
}

/// The settings to begin with.
pub open spec fn default_ai() -> AiSettingsView {
    AiSettingsView {
        enabled: true,
        providers: seq![ai_preset("deepseek"@)],
        active: ai_preset("deepseek"@).id,
        auto_summary: true,
        interval_secs: 20,
        min_new_chars: 60,
        live_window_secs: 90,
        max_context_chars: 4_000,
        final_report_on_stop: false,
        summary_mode: "meeting"@,
    }
}

impl Default for AiSettings {
    fn default() -> (r: AiSettings)
        ensures
            r@ == default_ai(),
    {
        let p = crate::ai::presets::provider_from_preset("deepseek");
        let active = p.id.clone();
        let mut providers: Vec<AiProvider> = Vec::new();
        providers.push(p);
        let r = AiSettings {
            enabled: true,
            providers,
            active_provider_id: active,
            auto_summary: true,
            interval_secs: 20,
            min_new_chars: 60,
            live_window_secs: 90,
            max_context_chars: 4_000,
            final_report_on_stop: false,
            summary_mode: "meeting".to_owned(),
        };
        proof {
            assert(r@.providers =~= seq![ai_preset("deepseek"@)]);
        }
        r
    }
}

impl AiSettings {
    /// The service in use.
    pub fn active(&self) -> (r: Option<&AiProvider>)
        ensures
            match r {
                Some(p) => self@.active_index(0) matches Some(i) && 0 <= i < self.providers@.len()
                    && *p == self.providers@[i] && p@ == self@.providers[i],
                None => self@.active_index(0) is None,
            },
    {
        let n: usize = self.providers.len();
        let mut i: usize = 0;
        while i < n
            invariant
                i <= n == self.providers@.len(),
                self@.active_index(0) == self@.active_index(i as int),
            decreases n - i,
        {
            proof {
                assert(self@.providers[i as int] == self.providers@[i as int]@);
            }
            if same(self.providers[i].id.as_str(), self.active_provider_id.as_str()) {
                return Some(&self.providers[i]);
            }
            i += 1;
        }
        if n > 0 {
            Some(&self.providers[0])
        } else {
            None
        }
    }

    /// Whether minutes can be made.
    pub fn ready(&self) -> (r: bool)
        ensures
            r == self@.ready(),
    {
        if !self.enabled {
            return false;
        }
        match self.active() {
            Some(p) => p.is_usable(),
            None => false,
        }
    }

    /// Brings the settings into range. The `i`-th of the fresh ids is for the
    /// `i`-th service, if that has none.
    pub fn sanitize_with(&mut self, fresh: &Vec<String>)
        requires
            fresh@.len() >= 1,
            fresh@.len() >= old(self)@.providers.len(),
        ensures
            final(self)@ == old(self)@.in_range(crate::text::views(fresh@)),
    {
        let ghost before = self@;
        self.interval_secs = clamp(self.interval_secs, 5, 600);
        self.min_new_chars = clamp(self.min_new_chars, 0, 5_000);
        self.live_window_secs = clamp(self.live_window_secs, 20, 600);
        self.max_context_chars = clamp(self.max_context_chars, 500, 60_000);
        if self.providers.len() == 0 {
            let mut providers: Vec<AiProvider> = Vec::new();
            providers.push(crate::ai::presets::provider_from_preset("deepseek"));
            self.providers = providers;
            proof {
                assert(self@.providers =~= seq![ai_preset("deepseek"@)]);
            }
        }
        let ghost all = AiSettingsView { providers: before.some_providers(), ..before };
        proof {
            assert(self@.providers == all.providers);
        }
        let n: usize = self.providers.len();
        let mut named: bool = false;
        let mut providers: Vec<AiProvider> = Vec::new();
        let mut i: usize = 0;
        while i < n
            invariant
                i <= n == self.providers@.len(),
                n <= fresh@.len(),
                self@.providers == all.providers,
                self@.active == all.active,
                named == exists|k: int| 0 <= k < i && all.names(k),
                providers@.len() == i,
                forall|k: int|
                    0 <= k < i ==> (#[trigger] providers@[k])@ == AiSettingsView::identified(
                        all.providers[k],
                        crate::text::views(fresh@)[k],
                    ),
            decreases n - i,
        {
            proof {
                assert(self@.providers[i as int] == self.providers@[i as int]@);
                assert(crate::text::views(fresh@)[i as int] == fresh@[i as int]@);
            }
            if same(self.providers[i].id.as_str(), self.active_provider_id.as_str()) {
                proof {
                    assert(all.names(i as int));
                }
                named = true;
            }
            let mut p = self.providers[i].duplicate();
            if is_blank(p.id.as_str()) {
                let mut id = "p".to_owned();
                id.append(fresh[i].as_str());
                p.id = id;
            }
            providers.push(p);
            i += 1;
        }
        if !named {
            self.active_provider_id = self.providers[0].id.clone();
            proof {
                assert(self@.providers[0] == self.providers@[0]@);
            }
        }
        self.providers = providers;
        proof {
            assert(self@.providers =~= before.in_range(crate::text::views(fresh@)).providers);
            if named {
                let k = choose|k: int| 0 <= k < n && all.names(k);
                assert(all.names(k));
            }
        }
    }

    /// Brings the settings into range; a service without an id gets a random one.
    pub fn sanitize(&mut self)
        ensures
            exists|fresh: Seq<Seq<char>>|
                final(self)@ == #[trigger] old(self)@.in_range(fresh) && fresh_ids(
                    fresh,
                    final(self)@.providers.len(),
                ),
    {
        let n: usize = if self.providers.len() == 0 {
            1
        } else {
            self.providers.len()
        };
        let mut fresh: Vec<String> = Vec::new();
        let mut i: usize = 0;
        while i < n
            invariant
                i <= n,
                fresh@.len() == i,
                forall|k: int| 0 <= k < i ==> simple_id((#[trigger] fresh@[k])@),
            decreases n - i,
        {
            fresh.push(fresh_id());
            i += 1;
        }
        let ghost fv = crate::text::views(fresh@);
        self.sanitize_with(&fresh);
        proof {
            assert forall|k: int| 0 <= k < fv.len() implies simple_id(#[trigger] fv[k]) by {
                assert(fv[k] == fresh@[k]@);
            }
        }
    }
}

/// Settings for minutes come out in range, with at least one service, each with
/// an id.
pub proof fn law_ai_settings_in_range(s: AiSettingsView, fresh: Seq<Seq<char>>)
    ensures
        ({
            let r = s.in_range(fresh);
            &&& 5 <= r.interval_secs <= 600
            &&& r.min_new_chars <= 5_000
            &&& 20 <= r.live_window_secs <= 600
            &&& 500 <= r.max_context_chars <= 60_000
            &&& r.providers.len() > 0
            &&& forall|i: int| 0 <= i < r.providers.len() ==> !blank((#[trigger] r.providers[i]).id)
        }),
{
    let r = s.in_range(fresh);
    reveal_strlit("p");
    assert("p"@[0] == 'p');
    assert(!crate::text::space('p'));
    let all = s.some_providers();
    assert forall|i: int| 0 <= i < r.providers.len() implies !blank(
        (#[trigger] r.providers[i]).id,
    ) by {
        if blank(all[i].id) {
            assert(r.providers[i].id[0] == 'p');
        }
    }
}

#[derive(Debug)]
pub struct AudioSettings {
    pub enable_mic: bool,
    pub mic_device_id: Option<String>,
    pub enable_loopback: bool,
    pub loopback_device_id: Option<String>,
    pub mic_gain: Single,
    pub loopback_gain: Single,
    pub save_audio: bool,
}

/// The settings to begin with.
pub open spec fn default_audio() -> AudioSettings {
    AudioSettings {
        enable_mic: true,
        mic_device_id: None,
        enable_loopback: true,
        loopback_device_id: None,
        mic_gain: Single { bits: BITS_1 },
        loopback_gain: Single { bits: BITS_1 },
        save_audio: true,
    }
}

impl Default for AudioSettings {
    fn default() -> (r: AudioSettings)
        ensures
            r == default_audio(),
    {
        AudioSettings {
            enable_mic: true,
            mic_device_id: None,
            enable_loopback: true,
            loopback_device_id: None,
            mic_gain: Single { bits: BITS_1 },
            loopback_gain: Single { bits: BITS_1 },
            save_audio: true,
        }
    }
}

impl AudioSettings {
    pub open spec fn in_range(self) -> AudioSettings {
        AudioSettings {
            mic_gain: self.mic_gain.clamped(Single { bits: BITS_0 }, Single { bits: BITS_4 }),
            loopback_gain: self.loopback_gain.clamped(
                Single { bits: BITS_0 },
                Single { bits: BITS_4 },
            ),
            ..self
        }
    }

    /// Brings the gains into range.
    pub fn sanitize(&mut self)
        ensures
            *final(self) == old(self).in_range(),
            final(self).mic_gain.within(Single { bits: BITS_0 }, Single { bits: BITS_4 }),
            final(self).loopback_gain.within(Single { bits: BITS_0 }, Single { bits: BITS_4 }),
    {
        self.mic_gain = self.mic_gain.clamp(Single { bits: BITS_0 }, Single { bits: BITS_4 });
        self.loopback_gain = self.loopback_gain.clamp(
            Single { bits: BITS_0 },
            Single { bits: BITS_4 },
        );
    }
}

#[derive(Debug)]
pub struct GeneralSettings {
    pub theme: String,
    pub auto_scroll: bool,
    pub font_scale: Single,
    pub data_dir: Option<String>,
    pub persist_api_key: bool,
    /// Whether the first set-up has been gone through.
    pub onboarding_completed: bool,
}

pub open spec fn known_theme(t: Seq<char>) -> bool {
    t == "dark"@ || t == "light"@ || t == "system"@
}

/// Whether settings are those to begin with.
pub open spec fn default_general(g: GeneralSettings) -> bool {
    &&& g.theme@ == "dark"@
    &&& g.auto_scroll
    &&& g.font_scale == (Single { bits: BITS_1 })
    &&& g.data_dir is None
    &&& g.persist_api_key
    &&& !g.onboarding_completed
}

impl Default for GeneralSettings {
    fn default() -> (r: GeneralSettings)
        ensures
            default_general(r),
    {
        GeneralSettings {
            theme: "dark".to_owned(),
            auto_scroll: true,
            font_scale: Single { bits: BITS_1 },
            data_dir: None,
            persist_api_key: true,
            onboarding_completed: false,
        }
    }
}

impl GeneralSettings {
    /// Brings the settings into range; an unknown theme becomes the dark one.
    pub fn sanitize(&mut self)
        ensures
            final(self).theme@ == if known_theme(old(self).theme@) {
                old(self).theme@
            } else {
                "dark"@
            },
            final(self).font_scale == old(self).font_scale.clamped(
                (Single { bits: BITS_0_8 }),
                (Single { bits: BITS_1_6 }),
            ),
            final(self).auto_scroll == old(self).auto_scroll,
            final(self).data_dir == old(self).data_dir,
            final(self).persist_api_key == old(self).persist_api_key,
            final(self).onboarding_completed == old(self).onboarding_completed,
    {
        self.font_scale = self.font_scale.clamp(
            Single { bits: BITS_0_8 },
            Single { bits: BITS_1_6 },
        );
        let t = self.theme.as_str();
        let known: bool = same(t, "dark") || same(t, "light") || same(t, "system");
        if !known {
            self.theme = "dark".to_owned();
        }
    }
}

// ---------------------------------------------------------------------------
// All settings
// ---------------------------------------------------------------------------

#[derive(Debug)]
pub struct Settings {
    pub version: u32,
    pub asr: AsrSettings,
    pub vad: VadSettings,
    pub ai: AiSettings,
    pub audio: AudioSettings,
    pub general: GeneralSettings,
}

impl Default for Settings {
    fn default() -> (r: Settings)
        ensures
            r.version == SETTINGS_VERSION,
            r.asr@ == default_asr(),
            r.vad == default_vad(),
            r.ai@ == default_ai(),
            r.audio == default_audio(),
            default_general(r.general),
    {
        Settings {
            version: SETTINGS_VERSION,
            asr: AsrSettings::default(),
            vad: VadSettings::default(),
            ai: AiSettings::default(),
            audio: AudioSettings::default(),
            general: GeneralSettings::default(),
        }
    }
}

/// A service without its key.
pub open spec fn keyless_asr(p: AsrProviderView) -> AsrProviderView {
    AsrProviderView { api_key: Seq::empty(), ..p }
}

pub open spec fn keyless_ai(p: AiProviderView) -> AiProviderView {
    AiProviderView { api_key: Seq::empty(), ..p }
}

/// The services as they are stored: without keys, unless those are to be kept.
pub open spec fn stored_asr(v: AsrSettingsView, keep: bool) -> AsrSettingsView {
    AsrSettingsView {
        providers: if keep {
            v.providers
        } else {
            v.providers.map_values(|p: AsrProviderView| keyless_asr(p))
        },
        ..v
    }
}

pub open spec fn stored_ai(v: AiSettingsView, keep: bool) -> AiSettingsView {
    AiSettingsView {
        providers: if keep {
            v.providers
        } else {
            v.providers.map_values(|p: AiProviderView| keyless_ai(p))
        },
        ..v
    }
}

fn copy_asr_providers(v: &Vec<AsrProvider>, keep: bool) -> (r: Vec<AsrProvider>)
    ensures
        asr_provider_views(r@) == if keep {
            asr_provider_views(v@)
        } else {
            asr_provider_views(v@).map_values(|p: AsrProviderView| keyless_asr(p))
        },
{
    let n: usize = v.len();
    let mut out: Vec<AsrProvider> = Vec::new();
    let mut i: usize = 0;
    while i < n
        invariant
            i <= n == v@.len(),
            out@.len() == i,
            forall|k: int|
                0 <= k < i ==> (#[trigger] out@[k])@ == if keep {
                    v@[k]@
                } else {
                    keyless_asr(v@[k]@)
                },
        decreases n - i,
    {
        let mut p = v[i].duplicate();
        if !keep {
            p.api_key = String::new();
        }
        out.push(p);
        i += 1;
    }
    proof {
        if keep {
            assert(asr_provider_views(out@) =~= asr_provider_views(v@));
        } else {
            assert(asr_provider_views(out@) =~= asr_provider_views(v@).map_values(
                |p: AsrProviderView| keyless_asr(p),
            ));
        }
    }
    out
}

fn copy_ai_providers(v: &Vec<AiProvider>, keep: bool) -> (r: Vec<AiProvider>)
    ensures
        ai_provider_views(r@) == if keep {
            ai_provider_views(v@)
        } else {
            ai_provider_views(v@).map_values(|p: AiProviderView| keyless_ai(p))
        },
{
    let n: usize = v.len();
    let mut out: Vec<AiProvider> = Vec::new();
    let mut i: usize = 0;
    while i < n
        invariant
            i <= n == v@.len(),
            out@.len() == i,
            forall|k: int|
                0 <= k < i ==> (#[trigger] out@[k])@ == if keep {
                    v@[k]@
                } else {
                    keyless_ai(v@[k]@)
                },
        decreases n - i,
    {
        let mut p = v[i].duplicate();
        if !keep {
            p.api_key = String::new();
        }
        out.push(p);
        i += 1;
    }
    proof {
        if keep {
            assert(ai_provider_views(out@) =~= ai_provider_views(v@));
        } else {
            assert(ai_provider_views(out@) =~= ai_provider_views(v@).map_values(
                |p: AiProviderView| keyless_ai(p),
            ));
        }
    }
    out
}

impl AsrSettings {
    /// A copy of the settings, with keys or without.
    fn stored(&self, keep: bool) -> (r: AsrSettings)
        ensures
            r@ == stored_asr(self@, keep),
    {
        AsrSettings {
            enabled: self.enabled,
            providers: copy_asr_providers(&self.providers, keep),
            active_provider_id: self.active_provider_id.clone(),
            context_prompt: self.context_prompt,
            temperature: self.temperature,
            live_preview: self.live_preview,
            max_chunk_secs: self.max_chunk_secs,
        }
    }

    /// A copy of the settings.
    pub fn duplicate(&self) -> (r: AsrSettings)
        ensures
            r@ == self@,
    {
        self.stored(true)
    }
}

impl AiSettings {
    /// A copy of the settings, with keys or without.
    fn stored(&self, keep: bool) -> (r: AiSettings)
        ensures
            r@ == stored_ai(self@, keep),
    {
        AiSettings {
            enabled: self.enabled,
            providers: copy_ai_providers(&self.providers, keep),
            active_provider_id: self.active_provider_id.clone(),
            auto_summary: self.auto_summary,
            interval_secs: self.interval_secs,
            min_new_chars: self.min_new_chars,
            live_window_secs: self.live_window_secs,
            max_context_chars: self.max_context_chars,
            final_report_on_stop: self.final_report_on_stop,
            summary_mode: self.summary_mode.clone(),
        }
    }

    /// A copy of the settings.
    pub fn duplicate(&self) -> (r: AiSettings)
        ensures
            r@ == self@,
    {
        self.stored(true)
    }
}

fn copy_opt(o: &Option<String>) -> (r: Option<String>)
    ensures
        r == *o,
{
    match o {
        Some(s) => Some(s.clone()),
        None => None,
    }
}

impl Settings {
    /// Brings all settings into range and sets the version.
    pub fn sanitize(&mut self)
        ensures
            final(self).version == SETTINGS_VERSION,
            final(self).vad == old(self).vad.in_range(),
            exists|fresh: Seq<Seq<char>>|
                final(self).ai@ == #[trigger] old(self).ai@.in_range(fresh) && fresh_ids(
                    fresh,
                    final(self).ai@.providers.len(),
                ),
            final(self).audio == old(self).audio.in_range(),
            final(self).general.theme@ == if known_theme(old(self).general.theme@) {
                old(self).general.theme@
            } else {
                "dark"@
            },
            final(self).general.font_scale == old(self).general.font_scale.clamped(
                (Single { bits: BITS_0_8 }),
                (Single { bits: BITS_1_6 }),
            ),
            final(self).general.persist_api_key == old(self).general.persist_api_key,
            final(self).general.auto_scroll == old(self).general.auto_scroll,
            final(self).general.data_dir == old(self).general.data_dir,
            final(self).general.onboarding_completed == old(self).general.onboarding_completed,
            final(self).asr@ == old(self).asr@.in_range(),
    {
        self.version = SETTINGS_VERSION;
        self.vad.sanitize();
        self.ai.sanitize();
        self.audio.sanitize();
        self.general.sanitize();
        self.asr.sanitize();
    }

    /// What is written to disk: everything, but keys only if the user wants them
    /// kept.
    pub fn for_persistence(&self) -> (r: Settings)
        ensures
            r.version == self.version,
            r.asr@ == stored_asr(self.asr@, self.general.persist_api_key),
            r.ai@ == stored_ai(self.ai@, self.general.persist_api_key),
            r.vad == self.vad,
            r.audio == self.audio,
            r.general == self.general,
    {
        let keep: bool = self.general.persist_api_key;
        Settings {
            version: self.version,
            asr: self.asr.stored(keep),
            vad: self.vad,
            ai: self.ai.stored(keep),
            audio: AudioSettings {
                enable_mic: self.audio.enable_mic,
                mic_device_id: copy_opt(&self.audio.mic_device_id),
                enable_loopback: self.audio.enable_loopback,
                loopback_device_id: copy_opt(&self.audio.loopback_device_id),
                mic_gain: self.audio.mic_gain,
                loopback_gain: self.audio.loopback_gain,
                save_audio: self.audio.save_audio,
            },
            general: GeneralSettings {
                theme: self.general.theme.clone(),
                auto_scroll: self.general.auto_scroll,
                font_scale: self.general.font_scale,
                data_dir: copy_opt(&self.general.data_dir),
                persist_api_key: self.general.persist_api_key,
                onboarding_completed: self.general.onboarding_completed,
            },
        }
    }
}

/// Where keys are not to be kept, nothing that is stored holds one.
pub proof fn law_keys_are_not_stored(asr: AsrSettingsView, ai: AiSettingsView)
    ensures
        forall|i: int|
            0 <= i < stored_asr(asr, false).providers.len() ==> (#[trigger] stored_asr(
                asr,
                false,
            ).providers[i]).api_key.len() == 0,
        forall|i: int|
            0 <= i < stored_ai(ai, false).providers.len() ==> (#[trigger] stored_ai(
                ai,
                false,
            ).providers[i]).api_key.len() == 0,
        stored_asr(asr, true) == asr,
        stored_ai(ai, true) == ai,
{
}

/// An address that is given with the path of the interface, as people tend to paste
/// it, leads to the same service as the address without it.
pub proof fn law_pasted_paths_are_taken_off(root: Seq<char>, p: AiProviderView, q: AsrProviderView)
    requires
        root.len() > 0,
        !crate::text::space(root[0]),
        root.last() != '/',
        p.base_url == root + "/chat/completions"@,
        q.base_url == root + "/audio/transcriptions"@,
    ensures
        p.root() == root,
        q.root() == root,
{
    reveal_strlit("/chat/completions");
    reveal_strlit("/audio/transcriptions");
    lemma_root_of_pasted(root, "/chat/completions"@, "/completions"@, "/models"@);
    lemma_root_of_pasted(
        root,
        "/audio/transcriptions"@,
        "/audio/translations"@,
        "/inference"@,
    );
}

proof fn lemma_root_of_pasted(root: Seq<char>, a: Seq<char>, b: Seq<char>, c: Seq<char>)
    requires
        root.len() > 0,
        !crate::text::space(root[0]),
        root.last() != '/',
        a.len() > 0,
        a.last() == 's',
    ensures
        root_of(root + a, a, b, c) == root,
{
    let base = root + a;
    assert(base[0] == root[0] && base.last() == 's');
    assert(!crate::text::space('s'));
    assert(trimmed(base) == base);
    assert(without_slashes(base) == base);
    assert(a =~= base.subrange(base.len() - a.len(), base.len() as int));
    assert(base.take(base.len() - a.len()) =~= root);
    assert(without_slashes(root) == root);
}

/// A plain address is kept as it is, and requests go below it.
pub proof fn law_plain_addresses_are_kept(root: Seq<char>, q: AsrProviderView, p: AiProviderView)
    requires
        root.len() > 0,
        !crate::text::space(root[0]),
        !crate::text::space(root.last()),
        root.last() != '/',
        q.base_url == root && p.base_url == root,
        !"/audio/transcriptions"@.is_suffix_of(root),
        !"/audio/translations"@.is_suffix_of(root),
        !"/inference"@.is_suffix_of(root),
        !"/chat/completions"@.is_suffix_of(root),
        !"/completions"@.is_suffix_of(root),
        !"/models"@.is_suffix_of(root),
    ensures
        q.root() == root,
        p.root() == root,
        blank(q.path) ==> q.endpoint() == root + "/audio/transcriptions"@,
        trimmed(q.path) == "/inference"@ ==> q.endpoint() == root + "/inference"@,
{
    assert(trimmed(root) == root);
    assert(without_slashes(root) == root);
    crate::text::lemma_trimmed_blank(q.path);
    reveal_strlit("/inference");
}

/// Bringing a service into range changes no address, key or model of it, and keeps
/// what is in range.
pub proof fn law_services_keep_what_was_filled_in(q: AsrProviderView, p: AiProviderView)
    ensures
        ({
            let r = q.sanitized();
            &&& r.id == q.id && r.base_url == q.base_url && r.path == q.path
            &&& r.api_key == q.api_key && r.model == q.model && r.headers == q.headers
            &&& 5 <= q.timeout <= 600 ==> r.timeout == q.timeout
            &&& !blank(q.name) ==> r.name == q.name
            &&& q.format == "json"@ || q.format == "verbose_json"@ || q.format == "text"@
                ==> r.format == q.format
        }),
        ({
            let r = p.sanitized();
            &&& r.id == p.id && r.base_url == p.base_url && r.api_key == p.api_key
            &&& r.model == p.model && r.json_mode == p.json_mode && r.headers == p.headers
            &&& 5 <= p.timeout <= 600 ==> r.timeout == p.timeout
            &&& 64 <= p.max_tokens <= 32_000 ==> r.max_tokens == p.max_tokens
            &&& !blank(p.name) ==> r.name == p.name
        }),
{
}

/// The service in use is the one that was chosen; where that is not there, the first.
pub proof fn law_chosen_service_is_used(s: AsrSettingsView, t: AiSettingsView, k: int)
    requires
        0 <= k,
    ensures
        k < s.providers.len() && s.providers[k].id == s.active ==> (s.active_index(0) matches Some(i)
            && 0 <= i <= k && s.providers[i].id == s.active),
        s.providers.len() > 0 && (forall|i: int|
            0 <= i < s.providers.len() ==> (#[trigger] s.providers[i]).id != s.active)
            ==> s.active_index(0) == Some(0int),
        s.providers.len() == 0 ==> s.active_index(0) is None,
        k < t.providers.len() && t.providers[k].id == t.active ==> (t.active_index(0) matches Some(i)
            && 0 <= i <= k && t.providers[i].id == t.active),
        t.providers.len() > 0 && (forall|i: int|
            0 <= i < t.providers.len() ==> (#[trigger] t.providers[i]).id != t.active)
            ==> t.active_index(0) == Some(0int),
        t.providers.len() == 0 ==> t.active_index(0) is None,
{
    lemma_asr_active(s, 0, k);
    lemma_ai_active(t, 0, k);
}

proof fn lemma_asr_active(s: AsrSettingsView, from: int, k: int)
    requires
        0 <= from,
    ensures
        from <= k < s.providers.len() && s.providers[k].id == s.active ==> (s.active_index(
            from,
        ) matches Some(i) && from <= i <= k && s.providers[i].id == s.active),
        s.providers.len() > 0 && (forall|i: int|
            0 <= i < s.providers.len() ==> (#[trigger] s.providers[i]).id != s.active)
            ==> s.active_index(from) == Some(0int),
    decreases s.providers.len() - from,
{
    if from < s.providers.len() {
        lemma_asr_active(s, from + 1, k);
    }
}

proof fn lemma_ai_active(s: AiSettingsView, from: int, k: int)
    requires
        0 <= from,
    ensures
        from <= k < s.providers.len() && s.providers[k].id == s.active ==> (s.active_index(
            from,
        ) matches Some(i) && from <= i <= k && s.providers[i].id == s.active),
        s.providers.len() > 0 && (forall|i: int|
            0 <= i < s.providers.len() ==> (#[trigger] s.providers[i]).id != s.active)
            ==> s.active_index(from) == Some(0int),
    decreases s.providers.len() - from,
{
    if from < s.providers.len() {
        lemma_ai_active(s, from + 1, k);
    }
}

/// Bringing settings into range loses no service and no choice: services keep their
/// order, addresses, keys and models, those with an id keep it, and the chosen one
/// stays chosen.
pub proof fn law_settings_keep_their_services(s: AsrSettingsView, t: AiSettingsView, fresh: Seq<
    Seq<char>,
>, i: int)
    requires
        0 <= i,
    ensures
        s.providers.len() > 0 ==> s.in_range().providers.len() == s.providers.len(),
        i < s.providers.len() ==> {
            let p = s.in_range().providers[i];
            &&& p.base_url == s.providers[i].base_url && p.api_key == s.providers[i].api_key
            &&& p.model == s.providers[i].model && p.path == s.providers[i].path
            &&& !blank(s.providers[i].id) ==> p.id == s.providers[i].id
        },
        i < s.providers.len() && s.providers[i].id == s.active ==> s.in_range().active == s.active,
        s.in_range().enabled == s.enabled && s.in_range().context_prompt == s.context_prompt
            && s.in_range().live_preview == s.live_preview,
        5 <= s.max_chunk_secs <= 120 ==> s.in_range().max_chunk_secs == s.max_chunk_secs,
        t.providers.len() > 0 ==> t.in_range(fresh).providers.len() == t.providers.len(),
        i < t.providers.len() ==> {
            let p = t.in_range(fresh).providers[i];
            &&& p.base_url == t.providers[i].base_url && p.api_key == t.providers[i].api_key
            &&& p.model == t.providers[i].model
            &&& !blank(t.providers[i].id) ==> p.id == t.providers[i].id
        },
        i < t.providers.len() && t.providers[i].id == t.active ==> t.in_range(fresh).active
            == t.active,
        t.in_range(fresh).enabled == t.enabled && t.in_range(fresh).auto_summary
            == t.auto_summary && t.in_range(fresh).summary_mode == t.summary_mode,
        5 <= t.interval_secs <= 600 ==> t.in_range(fresh).interval_secs == t.interval_secs,
        20 <= t.live_window_secs <= 600 ==> t.in_range(fresh).live_window_secs
            == t.live_window_secs,
        500 <= t.max_context_chars <= 60_000 ==> t.in_range(fresh).max_context_chars
            == t.max_context_chars,
        t.min_new_chars <= 5_000 ==> t.in_range(fresh).min_new_chars == t.min_new_chars,
{
    let all = AsrSettingsView { providers: s.some_providers(), ..s };
    if i < s.providers.len() && s.providers[i].id == s.active {
        assert(all.names(i));
    }
    let every = AiSettingsView { providers: t.some_providers(), ..t };
    if i < t.providers.len() && t.providers[i].id == t.active {
        assert(every.names(i));
    }
}

/// Detection keeps the times that are in range.
pub proof fn law_vad_settings_keep_what_is_in_range(v: VadSettings)
    ensures
        50 <= v.min_speech_ms <= 3_000 ==> v.in_range().min_speech_ms == v.min_speech_ms,
        150 <= v.min_silence_ms <= 5_000 ==> v.in_range().min_silence_ms == v.min_silence_ms,
        3_000 <= v.max_utterance_ms <= 60_000 && v.max_utterance_ms > v.min_silence_ms
            ==> v.in_range().max_utterance_ms == v.max_utterance_ms,
        v.speech_pad_ms <= 1_000 ==> v.in_range().speech_pad_ms == v.speech_pad_ms,
{
}

/// What is stored is all there but for the keys: services with their addresses and
/// models, in order, and which one is chosen.
pub proof fn law_only_keys_are_left_out(asr: AsrSettingsView, ai: AiSettingsView, i: int)
    requires
        0 <= i,
    ensures
        ({
            let r = stored_asr(asr, false);
            &&& r.providers.len() == asr.providers.len() && r.active == asr.active
            &&& r.enabled == asr.enabled && r.temperature == asr.temperature
            &&& i < asr.providers.len() ==> r.providers[i] == (AsrProviderView {
                api_key: Seq::empty(),
                ..asr.providers[i]
            })
        }),
        ({
            let r = stored_ai(ai, false);
            &&& r.providers.len() == ai.providers.len() && r.active == ai.active
            &&& r.enabled == ai.enabled && r.auto_summary == ai.auto_summary
            &&& r.interval_secs == ai.interval_secs && r.summary_mode == ai.summary_mode
            &&& i < ai.providers.len() ==> r.providers[i] == (AiProviderView {
                api_key: Seq::empty(),
                ..ai.providers[i]
            })
        }),
{
}

/// What [`Settings::for_persistence`] writes: everything that was set, but no key unless
/// keys are to be kept.
pub proof fn law_stored_settings_are_all_there(s: &Settings, r: Settings, i: int)
    requires
        call_ensures(Settings::for_persistence, (s,), r),
        0 <= i,
    ensures
        r.asr.providers@.len() == s.asr.providers@.len(),
        r.ai.providers@.len() == s.ai.providers@.len(),
        i < s.asr.providers@.len() ==> {
            &&& r.asr.providers@[i].model@ == s.asr.providers@[i].model@
            &&& r.asr.providers@[i].base_url@ == s.asr.providers@[i].base_url@
            &&& s.general.persist_api_key ==> r.asr.providers@[i].api_key@
                == s.asr.providers@[i].api_key@
            &&& !s.general.persist_api_key ==> r.asr.providers@[i].api_key@.len() == 0
        },
        i < s.ai.providers@.len() ==> {
            &&& r.ai.providers@[i].model@ == s.ai.providers@[i].model@
            &&& r.ai.providers@[i].base_url@ == s.ai.providers@[i].base_url@
            &&& s.general.persist_api_key ==> r.ai.providers@[i].api_key@
                == s.ai.providers@[i].api_key@
            &&& !s.general.persist_api_key ==> r.ai.providers@[i].api_key@.len() == 0
        },
        r.asr.active_provider_id@ == s.asr.active_provider_id@,
        r.ai.active_provider_id@ == s.ai.active_provider_id@,
        r.vad == s.vad && r.audio == s.audio && r.general == s.general,
{
    let a = asr_provider_views(s.asr.providers@);
    let b = asr_provider_views(r.asr.providers@);
    let c = ai_provider_views(s.ai.providers@);
    let d = ai_provider_views(r.ai.providers@);
    assert(r.asr@.providers == b && s.asr@.providers == a);
    assert(r.ai@.providers == d && s.ai@.providers == c);
    assert(a.len() == s.asr.providers@.len() && b.len() == r.asr.providers@.len());
    assert(c.len() == s.ai.providers@.len() && d.len() == r.ai.providers@.len());
    if i < s.asr.providers@.len() {
        assert(a[i] == s.asr.providers@[i]@ && b[i] == r.asr.providers@[i]@);
    }
    if i < s.ai.providers@.len() {
        assert(c[i] == s.ai.providers@[i]@ && d[i] == r.ai.providers@[i]@);
    }
    assert(r.asr@.active == r.asr.active_provider_id@);
    assert(r.ai@.active == r.ai.active_provider_id@);
}

/// Requests go to the address of the service: below the root that was filled in, at the
/// path of the interface.
pub proof fn law_requests_go_to_the_address_filled_in(
    asr: &AsrProvider,
    ai: &AiProvider,
    endpoint: String,
    chat: String,
    models: String,
    root: Seq<char>,
)
    requires
        call_ensures(AsrProvider::endpoint, (asr,), endpoint),
        call_ensures(AiProvider::chat_url, (ai,), chat),
        call_ensures(AiProvider::models_url, (ai,), models),
        root.len() > 0,
        !crate::text::space(root[0]),
        root.last() != '/',
        asr.base_url@ == root + "/audio/transcriptions"@,
        ai.base_url@ == root + "/chat/completions"@,
    ensures
        chat@ == root + "/chat/completions"@,
        models@ == root + "/models"@,
        blank(asr.transcription_path@) ==> endpoint@ == root + "/audio/transcriptions"@,
{
    law_pasted_paths_are_taken_off(root, ai@, asr@);
    crate::text::lemma_trimmed_blank(asr.transcription_path@);
}

/// The host is what stands between the scheme and the path.
pub proof fn law_hosts_stand_before_the_path(scheme: Seq<char>, host: Seq<char>, path: Seq<char>)
    requires
        scheme == "https"@ || scheme == "http"@,
        host.len() > 0,
        forall|i: int|
            0 <= i < host.len() ==> (#[trigger] host[i]) != '/' && host[i] != '?' && host[i] != '#'
                && !crate::text::space(host[i]),
    ensures
        host_in(scheme + "://"@ + host) == host,
        host_in(scheme + "://"@ + host + seq!['/'] + path) == host,
{
    reveal_strlit("https");
    reveal_strlit("http");
    reveal_strlit("://");
    let n = scheme.len() as int;
    let a = scheme + "://"@ + host;
    let b = scheme + "://"@ + host + seq!['/'] + path;
    assert(!crate::text::space(host[0]) && !crate::text::space(host[host.len() - 1]));
    lemma_after_scheme(scheme, host);
    lemma_after_scheme(scheme, host + (seq!['/'] + path));
    assert(scheme + "://"@ + (host + (seq!['/'] + path)) =~= b);
    let p = |c: char| ends_host(c);
    lemma_until_end(host, Seq::empty(), p);
    assert(host + Seq::<char>::empty() =~= host);
    lemma_until_end(host, seq!['/'] + path, p);
    let e = Seq::<char>::empty();
    crate::text::law_only_outer_space_is_trimmed(e, host, e);
    assert(e + host + e =~= host);
}

proof fn lemma_after_scheme(scheme: Seq<char>, rest: Seq<char>)
    requires
        scheme == "https"@ || scheme == "http"@,
    ensures
        after_text(scheme + "://"@ + rest, "://"@) == Some(rest),
{
    reveal_strlit("https");
    reveal_strlit("http");
    reveal_strlit("://");
    let s = scheme + "://"@ + rest;
    let t = "://"@;
    let n = scheme.len() as int;
    lemma_scheme_skipped(s, t, 0, n);
    assert(s.subrange(n, n + 3) =~= t);
    assert(crate::text::occurs_at(s, t, n));
    assert(s.skip(n + 3) =~= rest);
}

proof fn lemma_scheme_skipped(s: Seq<char>, t: Seq<char>, i: int, n: int)
    requires
        0 <= i <= n,
        n + t.len() <= s.len(),
        t.len() > 0,
        forall|k: int| 0 <= k < n ==> (#[trigger] s[k]) != t[0],
    ensures
        crate::text::text_index(s, t, i) == crate::text::text_index(s, t, n),
    decreases n - i,
{
    if i < n {
        lemma_scheme_skipped(s, t, i + 1, n);
        if crate::text::occurs_at(s, t, i) {
            assert(s.subrange(i, i + t.len())[0] == s[i]);
        }
    }
}

proof fn lemma_until_end(a: Seq<char>, b: Seq<char>, p: spec_fn(char) -> bool)
    requires
        forall|i: int| 0 <= i < a.len() ==> !p(#[trigger] a[i]),
        b.len() > 0 ==> p(b[0]),
    ensures
        until(a + b, p) == a,
    decreases a.len(),
{
    if a.len() == 0 {
        assert(a + b =~= b);
        assert(until(b, p) =~= a);
    } else {
        let rest = a.drop_first();
        assert forall|i: int| 0 <= i < rest.len() implies !p(#[trigger] rest[i]) by {
            assert(rest[i] == a[i + 1]);
        }
        lemma_until_end(rest, b, p);
        assert((a + b).drop_first() =~= rest + b);
        assert(!p(a[0]));
        assert(seq![a[0]] + rest =~= a);
    }
}

/// A service can be used if and only if it has a host and a model; a whisper.cpp server
/// needs no model. Settings are ready if they are switched on and the chosen service
/// can be used.
pub proof fn law_services_need_host_and_model(
    q: AsrProviderView,
    p: AiProviderView,
    s: AsrSettingsView,
    t: AiSettingsView,
    i: int,
)
    ensures
        p.usable() == (p.host().len() > 0 && !blank(p.model)),
        q.host().len() > 0 && !blank(q.model) ==> q.usable(),
        q.host().len() == 0 ==> !q.usable(),
        trimmed(q.path) == "/inference"@ ==> !q.needs_model() && q.usable() == (q.host().len() > 0),
        trimmed(q.path) == "/audio/transcriptions"@ ==> q.needs_model() && q.usable() == (
        q.host().len() > 0 && !blank(q.model)),
        s.active_index(0) == Some(i) ==> s.ready() == (s.enabled && s.providers[i].usable()),
        t.active_index(0) == Some(i) ==> t.ready() == (t.enabled && t.providers[i].usable()),
        !s.enabled ==> !s.ready(),
        !t.enabled ==> !t.ready(),
{
    reveal_strlit("/inference");
    reveal_strlit("/audio/transcriptions");
    let a = "/inference"@;
    let b = "/audio/transcriptions"@;
    assert(a.last() == 'e' && b.last() == 's');
    assert(without_slashes(a) == a);
    assert(without_slashes(b) == b);
    assert(a =~= a.subrange(0, a.len() as int));
    if a.is_suffix_of(b) {
        assert(b.subrange(b.len() - a.len(), b.len() as int)[a.len() - 1] == b.last());
    }
}

/// One slash stands between the address of a recognition service and its path, whether
/// or not the path was written with it; where none was written, it is that of OpenAI.
pub proof fn law_paths_begin_with_a_slash(q: AsrProviderView)
    ensures
        q.interface().len() > 0 && q.interface()[0] == '/',
        blank(q.path) ==> q.endpoint() == q.root() + "/audio/transcriptions"@,
        !blank(q.path) && trimmed(q.path)[0] == '/' ==> q.endpoint() == q.root() + trimmed(q.path),
        !blank(q.path) && trimmed(q.path)[0] != '/' ==> q.endpoint() == q.root() + (seq!['/']
            + trimmed(q.path)),
{
    reveal_strlit("/audio/transcriptions");
    reveal_strlit("/");
    assert("/"@ =~= seq!['/']);
    crate::text::lemma_trimmed_blank(q.path);
}

} // verus!
