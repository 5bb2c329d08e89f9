//! Talking to services that recognise speech.
//!
//! Audio is uploaded as a WAV file of 16 kHz mono, one utterance per request.
//! In which language it is spoken is left to the service.

use vstd::prelude::*;
use vstd::string::*;
use vstd::utf8::encode_utf8;
use crate::ai::client::describe_status;
use crate::ai::client::or_empty;
use crate::ai::client::status_text;
use crate::error::AppError;
use crate::error::AppResult;
use crate::error::ErrorView;
use crate::http::api_error;
use crate::http::extract_api_error;
use crate::http::is_success;
use crate::json::Json;
use crate::json::as_str;
use crate::json::field;
use crate::json::get;
use crate::json::get_text;
use crate::json::json_of;
use crate::json::keys;
use crate::json::parse;
use crate::json::parsed;
use crate::json::text_field;
use crate::json::text_of;
use crate::num::Single;
use crate::settings::AsrProvider;
use crate::settings::AsrProviderView;
use crate::text::blank;
use crate::text::contains;
use crate::text::decimal;
use crate::text::decimal_of;
use crate::text::from_chars;
use crate::text::has_text;
use crate::text::is_blank;
use crate::text::opt_view;
use crate::text::to_chars;
use crate::text::trim;
use crate::text::trimmed;
use crate::util::bypasses_proxy;
use crate::util::should_bypass_proxy;
use crate::util::truncate_chars;
use crate::util::truncated;

verus! {

/// The most attempts for one request.
pub const MAX_ATTEMPTS: u32 = 2;

/// How long to wait before the second attempt.
pub const RETRY_DELAY_MS: u64 = 1_500;

/// Audio to be recognised.
#[derive(Debug)]
pub struct TranscribeRequest {
    /// 16 kHz mono samples.
    pub samples: Vec<Single>,
    /// What was said before, to help with names and terms.
    pub prompt: Option<String>,
    pub temperature: Single,
}

/// A recognised text.
#[derive(Debug)]
pub struct AsrOutcome {
    pub text: String,
    /// The language, if the service says which.
    pub language: Option<String>,
    pub elapsed_ms: u64,
    pub audio_ms: i64,
}

/// The result of trying out a service.
#[derive(Debug)]
pub struct AsrConnectionTest {
    pub ok: bool,
    pub latency_ms: u64,
    pub model: String,
    pub sample: String,
    pub error: Option<String>,
}

/// Whether an address is reached without a proxy.
pub fn is_local_url(url: &str) -> (r: bool)
    ensures
        r == bypasses_proxy(url@),
{
    should_bypass_proxy(url)
}

// ---------------------------------------------------------------------------
// Errors
// ---------------------------------------------------------------------------

/// Why a request failed.
#[derive(Debug)]
pub enum AsrError {
    /// The service answered with an error.
    Status { code: u16, message: String },
    /// The service was not reached.
    Network(AppError),
    /// The request could not be made or the answer not be understood.
    Transport(AppError),
}

/// What to make of a status.
pub open spec fn asr_hint(code: u16) -> Seq<char> {
    if code == 401 || code == 403 {
        "鉴权失败，请检查 API Key"@
    } else if code == 404 {
        "接口或模型不存在，请检查 Base URL 路径与模型名"@
    } else if code == 413 {
        "音频太大被拒绝，可在「识别」页调小单次上传时长"@
    } else if code == 415 {
        "服务不支持上传的音频格式（应用固定发送 16kHz 单声道 WAV）"@
    } else if code == 429 {
        "请求过于频繁或额度不足，请稍后重试"@
    } else if code == 400 {
        "请求被拒绝，常见原因是模型名不对或参数不被支持"@
    } else {
        "识别服务返回错误"@
    }
}

impl AsrError {
    pub open spec fn retryable(self) -> bool {
        match self {
            AsrError::Status { code, .. } => code == 429 || code >= 500,
            AsrError::Network(_) => true,
            AsrError::Transport(e) => !(e is Asr),
        }
    }

    /// Whether trying again may help.
    pub fn is_retryable(&self) -> (r: bool)
        ensures
            r == self.retryable(),
    {
        match self {
            AsrError::Status { code, .. } => *code == 429 || *code >= 500,
            AsrError::Network(_) => true,
            AsrError::Transport(e) => match e {
                AppError::Asr(_) => false,
                _ => true,
            },
        }
    }

    /// A short description, for the log.
    pub fn describe(&self) -> (r: String)
        ensures
            r@ == match *self {
                AsrError::Status { code, message } => if blank(message@) {
                    "HTTP "@ + decimal(code as nat)
                } else {
                    "HTTP "@ + decimal(code as nat) + ": "@ + message@
                },
                AsrError::Network(e) => e@.message(),
                AsrError::Transport(e) => e@.message(),
            },
    {
        match self {
            AsrError::Status { code, message } => {
                let mut s = "HTTP ".to_owned();
                s.append(decimal_of(*code as u128).as_str());
                if !is_blank(message.as_str()) {
                    s.append(": ");
                    s.append(message.as_str());
                }
                s
            },
            AsrError::Network(e) => e.message(),
            AsrError::Transport(e) => e.message(),
        }
    }

    /// The error to show.
    pub fn to_app_error(self) -> (r: AppError)
        ensures
            r@ == match self {
                AsrError::Status { code, message } => ErrorView::Asr(
                    status_text(asr_hint(code), code, message@),
                ),
                AsrError::Network(e) => e@,
                AsrError::Transport(e) => e@,
            },
    {
        match self {
            AsrError::Status { code, message } => {
                let hint = if code == 401 || code == 403 {
                    "鉴权失败，请检查 API Key"
                } else if code == 404 {
                    "接口或模型不存在，请检查 Base URL 路径与模型名"
                } else if code == 413 {
                    "音频太大被拒绝，可在「识别」页调小单次上传时长"
                } else if code == 415 {
                    "服务不支持上传的音频格式（应用固定发送 16kHz 单声道 WAV）"
                } else if code == 429 {
                    "请求过于频繁或额度不足，请稍后重试"
                } else if code == 400 {
                    "请求被拒绝，常见原因是模型名不对或参数不被支持"
                } else {
                    "识别服务返回错误"
                };
                AppError::Asr(describe_status(hint, code, message.as_str()))
            },
            AsrError::Network(e) => e,
            AsrError::Transport(e) => e,
        }
    }
}

/// The error for a service that was not reached: too slow, not there, or
/// something else that `detail` tells.
pub fn network_error(timed_out: bool, refused: bool, detail: &str) -> (r: AppError)
    ensures
        r@ == ErrorView::Asr(
            if timed_out {
                "识别请求超时：可调大超时时间，或换更快的服务（如 Groq）"@
            } else if refused {
                "无法连接到识别服务："@ + detail@ + "（本地服务请确认已启动、端口正确）"@
            } else {
                "网络请求失败："@ + detail@
            },
        ),
{
    if timed_out {
        return AppError::asr("识别请求超时：可调大超时时间，或换更快的服务（如 Groq）");
    }
    if refused {
        let mut s = "无法连接到识别服务：".to_owned();
        s.append(detail);
        s.append("（本地服务请确认已启动、端口正确）");
        return AppError::Asr(s);
    }
    let mut s = "网络请求失败：".to_owned();
    s.append(detail);
    AppError::Asr(s)
}

/// What to do after a failed attempt.
#[derive(Clone, Copy, Debug, PartialEq, Eq, Structural)]
pub enum AsrStep {
    RetryAfterMs(u64),
    GiveUp,
}

/// Whether to try again after the `attempt`-th attempt failed.
pub fn after_failure(attempt: u32, err: &AsrError) -> (r: AsrStep)
    ensures
        r == if attempt < MAX_ATTEMPTS && err.retryable() {
            AsrStep::RetryAfterMs(RETRY_DELAY_MS)
        } else {
            AsrStep::GiveUp
        },
{
    if attempt < MAX_ATTEMPTS && err.is_retryable() {
        AsrStep::RetryAfterMs(RETRY_DELAY_MS)
    } else {
        AsrStep::GiveUp
    }
}

// ---------------------------------------------------------------------------
// Requests
// ---------------------------------------------------------------------------

/// Why a request cannot be made.
pub open spec fn cannot_transcribe(p: AsrProviderView, samples: Seq<Single>) -> Option<Seq<char>> {
    if p.host().len() == 0 {
        Some("尚未配置语音识别服务的 Base URL（应形如 https://api.groq.com/openai/v1）"@)
    } else if p.needs_model() && blank(p.model) {
        Some("尚未配置语音识别模型名"@)
    } else if samples.len() == 0 {
        Some("音频为空"@)
    } else {
        None
    }
}

/// Checks that a request can be made, and brings the settings of the service into
/// range.
pub fn prepare_transcribe(provider: &AsrProvider, req: &TranscribeRequest) -> (r: AppResult<
    AsrProvider,
>)
    ensures
        match r {
            Ok(p) => cannot_transcribe(provider@, req.samples@) is None && p@
                == provider@.sanitized(),
            Err(e) => cannot_transcribe(provider@, req.samples@) matches Some(m) && e@
                == ErrorView::Asr(m),
        },
{
    let p = provider.duplicate().sanitized();
    if p.host().as_str().unicode_len() == 0 {
        return Err(
            AppError::asr("尚未配置语音识别服务的 Base URL（应形如 https://api.groq.com/openai/v1）"),
        );
    }
    if p.model_is_required() && is_blank(p.model.as_str()) {
        return Err(AppError::asr("尚未配置语音识别模型名"));
    }
    if req.samples.len() == 0 {
        return Err(AppError::asr("音频为空"));
    }
    Ok(p)
}

#[verifier::external_type_specification]
#[verifier::external_body]
pub struct ExForm(reqwest::multipart::Form);

#[verifier::external_type_specification]
#[verifier::external_body]
pub struct ExPart(reqwest::multipart::Part);

/// What a part of a form holds: its bytes, and what it says of them.
#[verifier::ext_equal]
pub ghost struct Body {
    pub bytes: Seq<u8>,
    pub file_name: Option<Seq<char>>,
    pub mime: Option<Seq<char>>,
}

/// A text, in UTF-8, without a file name or a media type.
pub open spec fn text_body(text: Seq<char>) -> Body {
    Body { bytes: encode_utf8(text), file_name: None, mime: None }
}

/// A field of a form.
#[verifier::ext_equal]
pub ghost struct Field {
    pub name: Seq<char>,
    pub body: Body,
}

/// What a [`reqwest::multipart::Part`] holds.
pub uninterp spec fn part_body(p: reqwest::multipart::Part) -> Body;

/// The fields of a [`reqwest::multipart::Form`], in order.
pub uninterp spec fn form_fields(f: reqwest::multipart::Form) -> Seq<Field>;

/// [`reqwest::multipart::Form::new`]: a form without fields.
#[verifier::external_body]
fn new_form() -> (r: reqwest::multipart::Form)
    ensures
        form_fields(r) == Seq::<Field>::empty(),
{
    reqwest::multipart::Form::new()
}

/// [`reqwest::multipart::Form::text`]: one more field with the bytes of a text, at
/// the end.
#[verifier::external_body]
fn add_text(form: reqwest::multipart::Form, name: &'static str, value: String) -> (r:
    reqwest::multipart::Form)
    ensures
        form_fields(r) == form_fields(form).push(Field { name: name@, body: text_body(value@) }),
{
    form.text(name, value)
}

/// [`reqwest::multipart::Form::part`]: one more field, at the end.
#[verifier::external_body]
fn add_part(
    form: reqwest::multipart::Form,
    name: &'static str,
    part: reqwest::multipart::Part,
) -> (r: reqwest::multipart::Form)
    ensures
        form_fields(r) == form_fields(form).push(Field { name: name@, body: part_body(part) }),
{
    form.part(name, part)
}

/// [`reqwest::multipart::Part::bytes`]: a part with these bytes and neither a
/// file name nor a media type.
#[verifier::external_body]
fn bytes_part(bytes: Vec<u8>) -> (r: reqwest::multipart::Part)
    ensures
        part_body(r) == (Body { bytes: bytes@, file_name: None, mime: None }),
{
    reqwest::multipart::Part::bytes(bytes)
}

/// [`reqwest::multipart::Part::file_name`]: the part with a file name.
#[verifier::external_body]
fn name_file(part: reqwest::multipart::Part, name: &'static str) -> (r: reqwest::multipart::Part)
    ensures
        part_body(r) == (Body { file_name: Some(name@), ..part_body(part) }),
{
    part.file_name(name)
}

/// Two words of lower-case letters with a slash between them.
pub open spec fn plain_media_type(s: Seq<char>) -> bool {
    exists|k: int| #[trigger] slash_only_at(s, k)
}

pub open spec fn slash_only_at(s: Seq<char>, k: int) -> bool {
    &&& 0 < k < s.len() - 1
    &&& s[k] == '/'
    &&& forall|i: int| 0 <= i < s.len() && i != k ==> 'a' <= #[trigger] s[i] <= 'z'
}

/// [`reqwest::multipart::Part::mime_str`]: the part with a media type. Types made
/// of two words of lower-case letters are always accepted, and kept as they are.
#[verifier::external_body]
fn set_mime(part: reqwest::multipart::Part, mime: &str) -> (r: Result<
    reqwest::multipart::Part,
    String,
>)
    requires
        plain_media_type(mime@),
    ensures
        r is Ok,
        part_body(r->Ok_0) == (Body { mime: Some(mime@), ..part_body(part) }),
{
    part.mime_str(mime).map_err(|e| e.to_string())
}

/// A prompt without null characters.
pub open spec fn without_nulls(s: Seq<char>) -> Seq<char> {
    s.map_values(
        |c: char|
            if c == '\0' {
                ' '
            } else {
                c
            },
    )
}

/// The prompt that is sent, if there is anything to send.
pub open spec fn prompt_field(prompt: Option<Seq<char>>) -> Option<Seq<char>> {
    match prompt {
        Some(p) => if blank(without_nulls(p)) {
            None
        } else {
            Some(truncated(trimmed(without_nulls(p)), 200))
        },
        None => None,
    }
}

fn prompt_to_send(prompt: &Option<String>) -> (r: Option<String>)
    ensures
        opt_view(r) == prompt_field(opt_view(*prompt)),
{
    match prompt {
        Some(p) => {
            let v = to_chars(p.as_str());
            let n: usize = v.len();
            let mut out: Vec<char> = Vec::new();
            let mut i: usize = 0;
            while i < n
                invariant
                    i <= n == v@.len(),
                    out@ == without_nulls(v@).take(i as int),
                decreases n - i,
            {
                out.push(
                    if v[i] == '\0' {
                        ' '
                    } else {
                        v[i]
                    },
                );
                proof {
                    assert(out@ =~= without_nulls(v@).take(i + 1));
                }
                i += 1;
            }
            let s = from_chars(&out, 0, n);
            proof {
                assert(s@ =~= without_nulls(p@));
            }
            if is_blank(s.as_str()) {
                None
            } else {
                Some(truncate_chars(trim(s.as_str()), 200))
            }
        },
        None => None,
    }
}

/// The fields of a request.
pub open spec fn upload_fields(
    p: AsrProviderView,
    prompt: Option<Seq<char>>,
    temperature: Single,
    wav: Seq<u8>,
) -> Seq<Field> {
    let always = seq![
        Field {
            name: "file"@,
            body: Body {
                bytes: wav,
                file_name: Some("audio.wav"@),
                mime: Some("audio/wav"@),
            },
        },
        Field { name: "model"@, body: text_body(trimmed(p.model)) },
        Field { name: "response_format"@, body: text_body(p.format) },
        Field { name: "temperature"@, body: text_body(temperature.two_decimals()) },
    ];
    match prompt_field(prompt) {
        Some(text) => always.push(Field { name: "prompt"@, body: text_body(text) }),
        None => always,
    }
}

/// The form that uploads an utterance.
pub fn build_form(provider: &AsrProvider, req: &TranscribeRequest, wav: Vec<u8>) -> (r: Result<
    reqwest::multipart::Form,
    AsrError,
>)
    ensures
        r matches Ok(f) && form_fields(f) == upload_fields(
            provider@,
            opt_view(req.prompt),
            req.temperature,
            wav@,
        ),
{
    proof {
        reveal_strlit("audio/wav");
        assert(slash_only_at("audio/wav"@, 5));
    }
    let part = match set_mime(name_file(bytes_part(wav), "audio.wav"), "audio/wav") {
        Ok(p) => p,
        Err(e) => {
            return Err(AsrError::Transport(AppError::asr(e.as_str())));
        },
    };
    let form = add_part(new_form(), "file", part);
    let form = add_text(form, "model", trim(provider.model.as_str()).to_owned());
    let form = add_text(form, "response_format", provider.response_format.clone());
    let form = add_text(form, "temperature", req.temperature.fixed2());
    let form = match prompt_to_send(&req.prompt) {
        Some(text) => add_text(form, "prompt", text),
        None => form,
    };
    proof {
        assert(form_fields(form) =~= upload_fields(
            provider@,
            opt_view(req.prompt),
            req.temperature,
            wav@,
        ));
    }
    Ok(form)
}

/// In no request does the library choose the language.
pub proof fn law_no_request_names_a_language(
    p: AsrProviderView,
    prompt: Option<Seq<char>>,
    temperature: Single,
    wav: Seq<u8>,
    i: int,
)
    requires
        0 <= i < upload_fields(p, prompt, temperature, wav).len(),
    ensures
        upload_fields(p, prompt, temperature, wav)[i].name != "language"@,
{
    reveal_strlit("file");
    reveal_strlit("model");
    reveal_strlit("response_format");
    reveal_strlit("temperature");
    reveal_strlit("prompt");
    reveal_strlit("language");
    assert("language"@.len() == 8);
}

/// What is sent under a name.
pub open spec fn sent_as(fields: Seq<Field>, name: Seq<char>) -> Seq<Body> {
    fields.filter(|f: Field| f.name == name).map_values(|f: Field| f.body)
}

/// An upload says once, and only once, what the audio is, which model shall recognise
/// it, in which format to answer and how freely; the prompt is sent where there is one.
pub proof fn law_upload_says_each_thing_once(
    p: AsrProviderView,
    prompt: Option<Seq<char>>,
    temperature: Single,
    wav: Seq<u8>,
)
    ensures
        ({
            let all = upload_fields(p, prompt, temperature, wav);
            &&& sent_as(all, "file"@) == seq![
                Body {
                    bytes: wav,
                    file_name: Some("audio.wav"@),
                    mime: Some("audio/wav"@),
                },
            ]
            &&& sent_as(all, "model"@) == seq![
                Body { bytes: encode_utf8(trimmed(p.model)), file_name: None, mime: None },
            ]
            &&& sent_as(all, "response_format"@) == seq![
                Body { bytes: encode_utf8(p.format), file_name: None, mime: None },
            ]
            &&& sent_as(all, "temperature"@) == seq![
                Body { bytes: encode_utf8(temperature.two_decimals()), file_name: None, mime: None },
            ]
            &&& sent_as(all, "prompt"@).len() <= 1
            &&& all.len() == 4 + sent_as(all, "prompt"@).len()
            &&& prompt is None ==> sent_as(all, "prompt"@).len() == 0
            &&& prompt matches Some(t) ==> !t.contains('\0') && !blank(t) && trimmed(t).len() <= 200
                ==> sent_as(all, "prompt"@) == seq![
                Body { bytes: encode_utf8(trimmed(t)), file_name: None, mime: None },
            ]
        }),
{
    reveal_strlit("file");
    reveal_strlit("model");
    reveal_strlit("response_format");
    reveal_strlit("temperature");
    reveal_strlit("prompt");
    assert("file"@.len() == 4 && "model"@.len() == 5 && "response_format"@.len() == 15);
    assert("temperature"@.len() == 11 && "prompt"@.len() == 6);
    let all = upload_fields(p, prompt, temperature, wav);
    let tail = all.skip(4);
    let always = all.take(4);
    assert(all =~= always + tail);
    lemma_sent_as(all, "file"@);
    lemma_sent_as(all, "model"@);
    lemma_sent_as(all, "response_format"@);
    lemma_sent_as(all, "temperature"@);
    lemma_sent_as(all, "prompt"@);
    if let Some(t) = prompt {
        if !t.contains('\0') {
            assert forall|i: int| 0 <= i < t.len() implies t[i] != '\0' by {
                assert(t.contains(t[i]));
            }
            assert(without_nulls(t) =~= t);
        }
    }
}

/// Two uploads that name the same model are for the same model.
pub proof fn law_uploads_for_different_models_differ(
    p: AsrProviderView,
    q: AsrProviderView,
    prompt: Option<Seq<char>>,
    temperature: Single,
    wav: Seq<u8>,
)
    ensures
        sent_as(upload_fields(p, prompt, temperature, wav), "model"@) == sent_as(
            upload_fields(q, prompt, temperature, wav),
            "model"@,
        ) ==> trimmed(p.model) == trimmed(q.model),
        sent_as(upload_fields(p, prompt, temperature, wav), "response_format"@) == sent_as(
            upload_fields(q, prompt, temperature, wav),
            "response_format"@,
        ) ==> p.format == q.format,
{
    law_upload_says_each_thing_once(p, prompt, temperature, wav);
    law_upload_says_each_thing_once(q, prompt, temperature, wav);
    let a = sent_as(upload_fields(p, prompt, temperature, wav), "model"@);
    let b = sent_as(upload_fields(q, prompt, temperature, wav), "model"@);
    assert(a[0].bytes == encode_utf8(trimmed(p.model)));
    assert(b[0].bytes == encode_utf8(trimmed(q.model)));
    let c = sent_as(upload_fields(p, prompt, temperature, wav), "response_format"@);
    let d = sent_as(upload_fields(q, prompt, temperature, wav), "response_format"@);
    assert(c[0].bytes == encode_utf8(p.format));
    assert(d[0].bytes == encode_utf8(q.format));
    vstd::utf8::encode_utf8_decode_utf8(trimmed(p.model));
    vstd::utf8::encode_utf8_decode_utf8(trimmed(q.model));
    vstd::utf8::encode_utf8_decode_utf8(p.format);
    vstd::utf8::encode_utf8_decode_utf8(q.format);
}

proof fn lemma_sent_as(all: Seq<Field>, name: Seq<char>)
    requires
        4 <= all.len() <= 5,
    ensures
        ({
            let one = |k: int|
                if all[k].name == name {
                    seq![all[k].body]
                } else {
                    Seq::empty()
                };
            sent_as(all, name) == one(0) + one(1) + one(2) + one(3) + if all.len() == 5 {
                one(4)
            } else {
                Seq::empty()
            }
        }),
{
    let p = |f: Field| f.name == name;
    reveal(Seq::filter);
    let a1 = all.take(1);
    let a2 = all.take(2);
    let a3 = all.take(3);
    let a4 = all.take(4);
    assert(a1.drop_last() =~= Seq::empty());
    assert(a2.drop_last() =~= a1);
    assert(a3.drop_last() =~= a2);
    assert(a4.drop_last() =~= a3);
    let none = Seq::<Field>::empty();
    assert(none.filter(p) == none);
    assert(a1.drop_last().filter(p) == none);
    assert(a1.filter(p) == if p(all[0]) { none.push(all[0]) } else { none });
    assert(a2.filter(p) == if p(all[1]) { a1.filter(p).push(all[1]) } else { a1.filter(p) });
    assert(a3.filter(p) == if p(all[2]) { a2.filter(p).push(all[2]) } else { a2.filter(p) });
    assert(a4.filter(p) == if p(all[3]) { a3.filter(p).push(all[3]) } else { a3.filter(p) });
    if all.len() == 5 {
        assert(all.drop_last() =~= a4);
    } else {
        assert(all =~= a4);
    }
    let one = |k: int|
        if all[k].name == name {
            seq![all[k].body]
        } else {
            Seq::empty()
        };
    assert(sent_as(all, name) =~= one(0) + one(1) + one(2) + one(3) + if all.len() == 5 {
        one(4)
    } else {
        Seq::empty()
    });
}

// ---------------------------------------------------------------------------
// Replies
// ---------------------------------------------------------------------------

/// A text with something in it.
pub open spec fn non_empty(t: Option<Seq<char>>) -> Option<Seq<char>> {
    match t {
        Some(s) => if s.len() == 0 {
            None
        } else {
            Some(s)
        },
        None => None,
    }
}

/// The text in a result that a gateway wrapped under `key`.
pub open spec fn wrapped_text(j: Json, key: Seq<char>) -> Option<Seq<char>> {
    match field(j, key) {
        Some(x) => match text_field(x, "text"@) {
            Some(t) => Some(t),
            None => text_of(x),
        },
        None => None,
    }
}

/// The text that a JSON reply holds.
pub open spec fn recognised_text(j: Json) -> Option<Seq<char>> {
    let direct = text_field(j, "text"@);
    let a = wrapped_text(j, "result"@);
    let b = wrapped_text(j, "data"@);
    if direct is Some {
        direct
    } else if a is Some {
        a
    } else if b is Some {
        b
    } else {
        wrapped_text(j, "output"@)
    }
}

/// Text and language in a JSON reply.
pub open spec fn result_in(j: Json) -> Option<(Seq<char>, Option<Seq<char>>)> {
    match recognised_text(j) {
        Some(t) => Some((trimmed(t), non_empty(text_field(j, "language"@)))),
        None => None,
    }
}

/// A reply that is no JSON: the text itself, unless it is a web page.
pub open spec fn plain_result(body: Seq<char>, content_type: Seq<char>) -> Option<
    (Seq<char>, Option<Seq<char>>),
> {
    let t = trimmed(body);
    if t.len() == 0 || has_text(content_type, "html"@) || t[0] == '<' {
        None
    } else {
        Some((t, None))
    }
}

/// Text and language in a reply that can be read as JSON: a record with a result, a
/// string by itself, or a text that only looks like JSON, such as a number.
pub open spec fn json_result(j: Json, body: Seq<char>, content_type: Seq<char>) -> Option<
    (Seq<char>, Option<Seq<char>>),
> {
    match j {
        Json::Record(_) => result_in(j),
        Json::Text(t) => Some((trimmed(t), None)),
        _ => if has_text(content_type, "json"@) {
            None
        } else {
            plain_result(body, content_type)
        },
    }
}

/// Text and language in a reply.
pub open spec fn reply_result(body: Seq<char>, content_type: Seq<char>) -> Option<
    (Seq<char>, Option<Seq<char>>),
> {
    if trimmed(body).len() == 0 {
        None
    } else {
        match parsed(trimmed(body)) {
            Ok(j) => json_result(j, body, content_type),
            Err(_) => plain_result(body, content_type),
        }
    }
}

/// The view of a result.
pub open spec fn result_view(r: Option<(String, Option<String>)>) -> Option<
    (Seq<char>, Option<Seq<char>>),
> {
    match r {
        Some(x) => Some((x.0@, opt_view(x.1))),
        None => None,
    }
}

fn unwrap_text<'a>(v: &'a serde_json::Value, key: &str) -> (r: Option<&'a str>)
    ensures
        match r {
            Some(s) => wrapped_text(json_of(*v), key@) == Some(s@),
            None => wrapped_text(json_of(*v), key@) is None,
        },
{
    match get(v, key) {
        Some(x) => match get_text(x, "text") {
            Some(t) => Some(t),
            None => as_str(x),
        },
        None => None,
    }
}

/// Reads text and language from a JSON reply.
pub fn read_result(v: &serde_json::Value) -> (r: Option<(String, Option<String>)>)
    ensures
        result_view(r) == result_in(json_of(*v)),
{
    let language = match get_text(v, "language") {
        Some(l) => if l.unicode_len() == 0 {
            None
        } else {
            Some(l.to_owned())
        },
        None => None,
    };
    if let Some(t) = get_text(v, "text") {
        return Some((trim(t).to_owned(), language));
    }
    if let Some(t) = unwrap_text(v, "result") {
        return Some((trim(t).to_owned(), language));
    }
    if let Some(t) = unwrap_text(v, "data") {
        return Some((trim(t).to_owned(), language));
    }
    match unwrap_text(v, "output") {
        Some(t) => Some((trim(t).to_owned(), language)),
        None => None,
    }
}

/// Reads a reply that is no JSON.
pub fn read_plain(body: &str, content_type: &str) -> (r: Option<(String, Option<String>)>)
    ensures
        result_view(r) == plain_result(body@, content_type@),
{
    let t = trim(body);
    if t.unicode_len() == 0 || contains(content_type, "html") || t.get_char(0) == '<' {
        return None;
    }
    Some((t.to_owned(), None))
}

/// Reads a reply that can be read as JSON.
pub fn read_json(v: &serde_json::Value, body: &str, content_type: &str) -> (r: Option<
    (String, Option<String>),
>)
    ensures
        result_view(r) == json_result(json_of(*v), body@, content_type@),
{
    if let Some(t) = as_str(v) {
        return Some((trim(t).to_owned(), None));
    }
    if keys(v).is_some() {
        return read_result(v);
    }
    if contains(content_type, "json") {
        return None;
    }
    read_plain(body, content_type)
}

/// Text and language in a reply of a service.
pub fn extract_result(body: &str, content_type: &str) -> (r: Option<(String, Option<String>)>)
    ensures
        result_view(r) == reply_result(body@, content_type@),
{
    let t = trim(body);
    if t.unicode_len() == 0 {
        return None;
    }
    match parse(t) {
        Ok(v) => read_json(&v, body, content_type),
        Err(_) => read_plain(body, content_type),
    }
}

/// Only the text in a reply.
pub fn extract_text(body: &str, content_type: &str) -> (r: Option<String>)
    ensures
        opt_view(r) == match reply_result(body@, content_type@) {
            Some(x) => Some(x.0),
            None => None,
        },
{
    match extract_result(body, content_type) {
        Some((text, _)) => Some(text),
        None => None,
    }
}

/// The error for a reply without a result.
pub open spec fn unreadable(body: Seq<char>, content_type: Seq<char>) -> Seq<char> {
    "识别服务返回了无法解析的内容（Content-Type: "@ + content_type + "）："@ + truncated(
        trimmed(body),
        200,
    )
}

/// The outcome of one exchange.
pub fn receive(code: u16, content_type: &str, body: &str) -> (r: Result<
    (String, Option<String>),
    AsrError,
>)
    ensures
        if 200 <= code <= 299 {
            match r {
                Ok(x) => reply_result(body@, content_type@) == Some((x.0@, opt_view(x.1))),
                Err(e) => reply_result(body@, content_type@) is None && (e matches
                    AsrError::Transport(a) && a@ == ErrorView::Asr(
                    unreadable(body@, content_type@),
                )),
            }
        } else {
            r matches Err(AsrError::Status { code: c, message }) && c == code && message@
                == or_empty(api_error(body@))
        },
{
    if !is_success(code) {
        let message = match extract_api_error(body) {
            Some(m) => m,
            None => String::new(),
        };
        return Err(AsrError::Status { code, message });
    }
    match extract_result(body, content_type) {
        Some(x) => Ok(x),
        None => {
            let mut s = "识别服务返回了无法解析的内容（Content-Type: ".to_owned();
            s.append(content_type);
            s.append("）：");
            s.append(truncate_chars(trim(body), 200).as_str());
            Err(AsrError::Transport(AppError::Asr(s)))
        },
    }
}

// ---------------------------------------------------------------------------
// Trying out a service
// ---------------------------------------------------------------------------

/// What a service is asked when it is tried out: six tenths of a second of
/// silence, which works wherever the service does.
pub fn probe_request() -> (r: TranscribeRequest)
    ensures
        r.samples@ == Seq::new(9_600, |i: int| Single { bits: 0 }),
        r.prompt is None,
        r.temperature == (Single { bits: 0 }),
{
    let mut samples: Vec<Single> = Vec::new();
    let mut i: usize = 0;
    while i < 9_600
        invariant
            i <= 9_600,
            samples@.len() == i,
            forall|k: int| 0 <= k < i ==> samples@[k] == (Single { bits: 0 }),
        decreases 9_600 - i,
    {
        samples.push(Single::zero());
        i += 1;
    }
    proof {
        assert(samples@ =~= Seq::new(9_600, |i: int| Single { bits: 0 }));
    }
    TranscribeRequest { samples, prompt: None, temperature: Single::zero() }
}

/// The result of trying out a service, from its answer. An empty text is as good
/// as any: there was nothing to hear.
pub fn connection_result(
    provider: &AsrProvider,
    outcome: AppResult<AsrOutcome>,
    latency_ms: u64,
) -> (r: AsrConnectionTest)
    ensures
        r.ok == (outcome is Ok),
        r.latency_ms == latency_ms,
        r.model@ == provider@.model,
        match outcome {
            Ok(o) => r.sample@ == o.text@ && r.error is None,
            Err(e) => r.sample@.len() == 0 && opt_view(r.error) == Some(e@.message()),
        },
{
    match outcome {
        Ok(o) => AsrConnectionTest {
            ok: true,
            latency_ms,
            model: provider.model.clone(),
            sample: o.text,
            error: None,
        },
        Err(e) => AsrConnectionTest {
            ok: false,
            latency_ms,
            model: provider.model.clone(),
            sample: String::new(),
            error: Some(e.message()),
        },
    }
}

/// What a service recognised is the text of its reply: under `text`, or under `text`
/// of a wrapping result, without white space around it. Whatever else the reply holds
/// does not matter.
pub proof fn law_recognised_text_is_what_the_reply_says(
    j: Json,
    inner: Json,
    t: Seq<char>,
    body: Seq<char>,
    content_type: Seq<char>,
)
    requires
        j is Record,
    ensures
        field(j, "text"@) == Some(Json::Text(t)) ==> (json_result(j, body, content_type) matches Some(
            r,
        ) && r.0 == trimmed(t)),
        field(j, "text"@) is None && field(j, "result"@) == Some(inner) && field(inner, "text"@)
            == Some(Json::Text(t)) ==> (json_result(j, body, content_type) matches Some(r) && r.0
            == trimmed(t)),
        field(j, "text"@) is None && field(j, "result"@) is None && field(j, "data"@) == Some(inner)
            && field(inner, "text"@) == Some(Json::Text(t)) ==> (json_result(
            j,
            body,
            content_type,
        ) matches Some(r) && r.0 == trimmed(t)),
        field(j, "text"@) is None && field(j, "result"@) is None && field(j, "data"@) is None
            && field(j, "output"@) is None ==> json_result(j, body, content_type) is None,
        field(j, "text"@) == Some(Json::Text(t)) && field(j, "language"@) is None ==> json_result(
            j,
            body,
            content_type,
        ) == Some((trimmed(t), None::<Seq<char>>)),
{
}

/// A reply in plain text is the text itself; a web page and an empty reply are none.
pub proof fn law_plain_replies_are_taken_as_they_are(body: Seq<char>, content_type: Seq<char>)
    ensures
        parsed(trimmed(body)) is Err && !blank(body) && !has_text(content_type, "html"@) && trimmed(
            body,
        )[0] != '<' ==> reply_result(body, content_type) == Some(
            (trimmed(body), None::<Seq<char>>),
        ),
        parsed(trimmed(body)) is Err && has_text(content_type, "html"@) ==> reply_result(
            body,
            content_type,
        ) is None,
        blank(body) ==> reply_result(body, content_type) is None,
{
    crate::text::lemma_trimmed_blank(body);
}

/// What may pass is tried again, and nothing else is.
pub proof fn law_only_passing_trouble_is_tried_again(err: AsrError)
    ensures
        err matches AsrError::Status { code, .. } ==> {
            &&& code == 429 || 500 <= code <= 599 ==> err.retryable()
            &&& 400 <= code < 429 || 430 <= code < 500 ==> !err.retryable()
        },
        err is Network ==> err.retryable(),
{
}

/// A request is made whenever there is an address, audio, and the model that the
/// interface needs; otherwise the first thing that is missing is named.
pub proof fn law_requests_need_address_model_and_audio(p: AsrProviderView, samples: Seq<Single>)
    ensures
        p.host().len() > 0 && !blank(p.model) && samples.len() > 0 ==> cannot_transcribe(
            p,
            samples,
        ) is None,
        p.host().len() == 0 ==> cannot_transcribe(p, samples) is Some,
        p.needs_model() && blank(p.model) ==> cannot_transcribe(p, samples) is Some,
        samples.len() == 0 ==> cannot_transcribe(p, samples) is Some,
{
}

/// What [`build_form`] puts into a request: the audio, the model of the service, the
/// format of the answer and the temperature, each once.
pub proof fn law_form_asks_for_the_model(
    provider: &AsrProvider,
    req: &TranscribeRequest,
    wav: Vec<u8>,
    r: Result<reqwest::multipart::Form, AsrError>,
)
    requires
        call_ensures(build_form, (provider, req, wav), r),
    ensures
        r is Ok,
        ({
            let all = form_fields(r->Ok_0);
            &&& sent_as(all, "model"@) == seq![
                Body { bytes: encode_utf8(trimmed(provider.model@)), file_name: None, mime: None },
            ]
            &&& sent_as(all, "response_format"@) == seq![
                Body { bytes: encode_utf8(provider.response_format@), file_name: None, mime: None },
            ]
            &&& sent_as(all, "temperature"@) == seq![
                Body {
                    bytes: encode_utf8(req.temperature.two_decimals()),
                    file_name: None,
                    mime: None,
                },
            ]
            &&& sent_as(all, "file"@) == seq![
                Body {
                    bytes: wav@,
                    file_name: Some("audio.wav"@),
                    mime: Some("audio/wav"@),
                },
            ]
            &&& req.prompt is None ==> all.len() == 4
        }),
{
    law_upload_says_each_thing_once(provider@, opt_view(req.prompt), req.temperature, wav@);
}

/// What [`receive`] makes of an answer: a result of a success, and an error with its
/// status of anything else.
pub proof fn law_only_successes_have_results(
    code: u16,
    content_type: &str,
    body: &str,
    r: Result<(String, Option<String>), AsrError>,
)
    requires
        call_ensures(receive, (code, content_type, body), r),
    ensures
        !(200 <= code <= 299) ==> (r matches Err(AsrError::Status { code: c, .. }) && c == code),
        200 <= code <= 299 && parsed(trimmed(body@)) is Err && !blank(body@) && !has_text(
            content_type@,
            "html"@,
        ) && trimmed(body@)[0] != '<' ==> (r matches Ok(x) && x.0@ == trimmed(body@) && x.1 is None),
        200 <= code <= 299 && blank(body@) ==> r is Err,
{
    law_plain_replies_are_taken_as_they_are(body@, content_type@);
}

/// A failed attempt is repeated once, a second and a half later, if that may help.
pub proof fn law_recognition_is_tried_twice(attempt: u32, err: &AsrError, r: AsrStep)
    requires
        call_ensures(after_failure, (attempt, err), r),
    ensures
        attempt >= 2 ==> r == AsrStep::GiveUp,
        attempt == 1 && (*err is Network) ==> r == AsrStep::RetryAfterMs(1_500),
        attempt == 1 ==> (*err matches AsrError::Status { code, .. } ==> (code == 429 || code >= 500
            ==> r == AsrStep::RetryAfterMs(1_500)) && (400 <= code < 429 ==> r == AsrStep::GiveUp)),
{
}

/// The hint goes by the status: a key that is not accepted, an address or a model that
/// does not exist, audio that is too long or of the wrong kind, a limit that was
/// reached, a request that was refused, or none of these.
pub proof fn law_hints_go_by_the_status(code: u16)
    ensures
        code == 401 || code == 403 ==> asr_hint(code) == "鉴权失败，请检查 API Key"@,
        code == 404 ==> asr_hint(code) == "接口或模型不存在，请检查 Base URL 路径与模型名"@,
        code == 413 ==> asr_hint(code) == "音频太大被拒绝，可在「识别」页调小单次上传时长"@,
        code == 415 ==> asr_hint(code) == "服务不支持上传的音频格式（应用固定发送 16kHz 单声道 WAV）"@,
        code == 429 ==> asr_hint(code) == "请求过于频繁或额度不足，请稍后重试"@,
        code == 400 ==> asr_hint(code) == "请求被拒绝，常见原因是模型名不对或参数不被支持"@,
        code >= 500 ==> asr_hint(code) == "识别服务返回错误"@,
{
}

} // verus!
