//! Talking to services with the OpenAI chat interface.

use vstd::prelude::*;
use vstd::string::*;
use crate::error::AppError;
use crate::error::AppResult;
use crate::error::ErrorView;
use crate::http::api_error;
use crate::http::extract_api_error;
use crate::http::is_success;
use crate::http::nested_text;
use crate::http::text_in;
use crate::json::Json;
use crate::json::as_str;
use crate::json::field;
use crate::json::get;
use crate::json::get_list;
use crate::json::get_number;
use crate::json::get_text;
use crate::json::json_of;
use crate::json::jsons_of;
use crate::json::list_field;
use crate::json::number_field;
use crate::json::parse;
use crate::json::parsed;
use crate::json::text_field;
use crate::json::text_of;
use crate::num::Single;
use crate::settings::AiProvider;
use crate::settings::AiProviderView;
use crate::text::ascending;
use crate::text::blank;
use crate::text::contains;
use crate::text::decimal;
use crate::text::decimal_of;
use crate::text::has_text;
use crate::text::is_blank;
use crate::text::opt_view;
use crate::text::same;
use crate::text::sorted_distinct;
use crate::text::trim;
use crate::text::trimmed;
use crate::text::views;
use crate::util::bypasses_proxy;
use crate::util::should_bypass_proxy;
use crate::util::truncate_chars;
use crate::util::truncated;

verus! {

/// How many tokens a request took.
#[derive(Clone, Copy, Debug, PartialEq, Eq, Structural)]
pub struct TokenUsage {
    pub prompt_tokens: u32,
    pub completion_tokens: u32,
    pub total_tokens: u32,
}

/// `a + b`, or the largest number there is.
pub open spec fn saturated(a: u32, b: u32) -> u32 {
    if a + b > u32::MAX {
        u32::MAX
    } else {
        (a + b) as u32
    }
}

pub(crate) fn saturating_sum(a: u32, b: u32) -> (r: u32)
    ensures
        r == saturated(a, b),
{
    if b > u32::MAX - a {
        u32::MAX
    } else {
        a + b
    }
}

impl Default for TokenUsage {
    fn default() -> (r: TokenUsage)
        ensures
            r == (TokenUsage { prompt_tokens: 0, completion_tokens: 0, total_tokens: 0 }),
    {
        TokenUsage { prompt_tokens: 0, completion_tokens: 0, total_tokens: 0 }
    }
}

impl TokenUsage {
    pub fn accumulate(&mut self, other: &TokenUsage)
        ensures
            final(self).prompt_tokens == saturated(old(self).prompt_tokens, other.prompt_tokens),
            final(self).completion_tokens == saturated(
                old(self).completion_tokens,
                other.completion_tokens,
            ),
            final(self).total_tokens == saturated(old(self).total_tokens, other.total_tokens),
    {
        self.prompt_tokens = saturating_sum(self.prompt_tokens, other.prompt_tokens);
        self.completion_tokens = saturating_sum(self.completion_tokens, other.completion_tokens);
        self.total_tokens = saturating_sum(self.total_tokens, other.total_tokens);
    }
}

/// A message of a conversation.
#[derive(Debug)]
pub struct ChatMessage {
    pub role: String,
    pub content: String,
}

#[verifier::ext_equal]
pub ghost struct MessageView {
    pub role: Seq<char>,
    pub content: Seq<char>,
}

impl View for ChatMessage {
    type V = MessageView;

    open spec fn view(&self) -> MessageView {
        MessageView { role: self.role@, content: self.content@ }
    }
}

pub open spec fn message_views(v: Seq<ChatMessage>) -> Seq<MessageView> {
    v.map_values(|m: ChatMessage| m@)
}

impl ChatMessage {
    pub fn system(content: &str) -> (r: ChatMessage)
        ensures
            r@ == (MessageView { role: "system"@, content: content@ }),
    {
        ChatMessage { role: "system".to_owned(), content: content.to_owned() }
    }

    pub fn user(content: &str) -> (r: ChatMessage)
        ensures
            r@ == (MessageView { role: "user"@, content: content@ }),
    {
        ChatMessage { role: "user".to_owned(), content: content.to_owned() }
    }

    pub fn assistant(content: &str) -> (r: ChatMessage)
        ensures
            r@ == (MessageView { role: "assistant"@, content: content@ }),
    {
        ChatMessage { role: "assistant".to_owned(), content: content.to_owned() }
    }
}

// ---------------------------------------------------------------------------
// Trying again
// ---------------------------------------------------------------------------

/// The most attempts for one request, the first one included.
pub const MAX_ATTEMPTS: u32 = 4;

/// How long to wait.
#[derive(Clone, Copy, Debug, PartialEq, Eq, Structural)]
pub struct Delay {
    pub secs: u64,
}

impl Delay {
    pub fn as_secs(&self) -> (r: u64)
        ensures
            r == self.secs,
    {
        self.secs
    }
}

/// Seconds to wait after the given number of failed attempts: twice as long each
/// time, eight at most.
pub open spec fn backoff_secs(attempt: int) -> u64 {
    if attempt <= 1 {
        1
    } else if attempt == 2 {
        2
    } else if attempt == 3 {
        4
    } else {
        8
    }
}

pub fn backoff_delay(attempt: u32) -> (r: Delay)
    ensures
        r.secs == backoff_secs(attempt as int),
{
    let secs: u64 = if attempt <= 1 {
        1
    } else if attempt == 2 {
        2
    } else if attempt == 3 {
        4
    } else {
        8
    };
    Delay { secs }
}

/// Waiting grows with each failure until it stays the same.
pub proof fn law_backoff_grows_then_caps(a: int, b: int)
    requires
        a <= b,
    ensures
        backoff_secs(a) <= backoff_secs(b) <= 8,
        1 <= a && b == a + 1 && backoff_secs(b) < 8 ==> backoff_secs(b) == 2 * backoff_secs(a),
{
}

/// Why a request failed.
#[derive(Debug)]
pub enum ChatError {
    /// The service answered with an error.
    Status { code: u16, message: String, raw: String },
    /// The service was not reached or not understood.
    Transport(AppError),
}

/// Whether an answer blames the request for replies in JSON.
pub open spec fn rejects_json(code: u16, message: Seq<char>, raw: Seq<char>) -> bool {
    code == 400 && (has_text(raw, "response_format"@) || has_text(raw, "json_object"@) || has_text(
        message,
        "response_format"@,
    ) || has_text(message, "json_object"@))
}

/// What to make of a status.
pub open spec fn chat_hint(code: u16) -> Seq<char> {
    if code == 401 || code == 403 {
        "鉴权失败，请检查 API Key 是否正确、是否已过期"@
    } else if code == 404 {
        "接口不存在，请检查 Base URL 是否填写正确（应形如 https://api.deepseek.com/v1，不要带 /chat/completions）"@
    } else if code == 429 {
        "请求过于频繁或额度不足，请稍后重试或检查账户余额"@
    } else if code == 413 {
        "内容过长被拒绝，可调小「上下文上限」"@
    } else {
        "服务返回错误"@
    }
}

/// A hint with the status and what the service said.
pub open spec fn status_text(hint: Seq<char>, code: u16, message: Seq<char>) -> Seq<char> {
    hint + "（HTTP "@ + decimal(code as nat) + "）"@ + if trimmed(message).len() == 0 {
        Seq::empty()
    } else {
        "："@ + truncated(trimmed(message), 300)
    }
}

pub(crate) fn describe_status(hint: &str, code: u16, message: &str) -> (r: String)
    ensures
        r@ == status_text(hint@, code, message@),
{
    let mut s = hint.to_owned();
    s.append("（HTTP ");
    s.append(decimal_of(code as u128).as_str());
    s.append("）");
    let t = trim(message);
    let ghost head = s@;
    if t.unicode_len() > 0 {
        s.append("：");
        s.append(truncate_chars(t, 300).as_str());
        proof {
            assert(s@ =~= head + ("："@ + truncated(t@, 300)));
        }
    } else {
        proof {
            assert(s@ =~= head + Seq::empty());
        }
    }
    s
}

impl ChatError {
    /// Whether the service may accept the request without the wish for JSON.
    pub fn is_json_mode_rejection(&self) -> (r: bool)
        ensures
            r == match *self {
                ChatError::Status { code, message, raw } => rejects_json(code, message@, raw@),
                ChatError::Transport(_) => false,
            },
    {
        match self {
            ChatError::Status { code, message, raw } => *code == 400 && (contains(
                raw.as_str(),
                "response_format",
            ) || contains(raw.as_str(), "json_object") || contains(
                message.as_str(),
                "response_format",
            ) || contains(message.as_str(), "json_object")),
            ChatError::Transport(_) => false,
        }
    }

    pub open spec fn retryable(self) -> bool {
        match self {
            ChatError::Status { code, .. } => code == 429 || code >= 500,
            ChatError::Transport(_) => true,
        }
    }

    /// Whether trying again may help.
    pub fn is_retryable(&self) -> (r: bool)
        ensures
            r == self.retryable(),
    {
        match self {
            ChatError::Status { code, .. } => *code == 429 || *code >= 500,
            ChatError::Transport(_) => true,
        }
    }

    /// The error to show.
    pub fn to_app_error(self) -> (r: AppError)
        ensures
            r@ == match self {
                ChatError::Status { code, message, raw } => ErrorView::Ai(
                    status_text(chat_hint(code), code, message@),
                ),
                ChatError::Transport(e) => e@,
            },
    {
        match self {
            ChatError::Status { code, message, raw } => {
                let hint = if code == 401 || code == 403 {
                    "鉴权失败，请检查 API Key 是否正确、是否已过期"
                } else if code == 404 {
                    "接口不存在，请检查 Base URL 是否填写正确（应形如 https://api.deepseek.com/v1，不要带 /chat/completions）"
                } else if code == 429 {
                    "请求过于频繁或额度不足，请稍后重试或检查账户余额"
                } else if code == 413 {
                    "内容过长被拒绝，可调小「上下文上限」"
                } else {
                    "服务返回错误"
                };
                AppError::Ai(describe_status(hint, code, message.as_str()))
            },
            ChatError::Transport(e) => e,
        }
    }
}

/// The error for a service that was not reached: too slow, not there, or
/// something else that `detail` tells.
pub fn network_error(timed_out: bool, refused: bool, detail: &str) -> (r: AppError)
    ensures
        r@ == ErrorView::Ai(
            if timed_out {
                "请求超时：模型响应太慢，可调大超时时间或换更小的模型"@
            } else if refused {
                "无法连接到 AI 服务："@ + detail@ + "（本地模型请确认服务已启动）"@
            } else {
                "网络请求失败："@ + detail@
            },
        ),
{
    if timed_out {
        return AppError::ai("请求超时：模型响应太慢，可调大超时时间或换更小的模型");
    }
    if refused {
        let mut s = "无法连接到 AI 服务：".to_owned();
        s.append(detail);
        s.append("（本地模型请确认服务已启动）");
        return AppError::Ai(s);
    }
    let mut s = "网络请求失败：".to_owned();
    s.append(detail);
    AppError::Ai(s)
}

/// How far a request has got.
#[derive(Clone, Copy, Debug, PartialEq, Eq, Structural)]
pub struct ChatAttempts {
    /// Attempts begun.
    pub attempt: u32,
    /// Whether the next attempt asks for JSON.
    pub use_json: bool,
    /// Whether the wish for JSON was given up.
    pub json_degraded: bool,
}

/// What to do after a failed attempt.
#[derive(Clone, Copy, Debug, PartialEq, Eq, Structural)]
pub enum ChatStep {
    RetryNow,
    RetryAfter(Delay),
    GiveUp,
}

impl ChatAttempts {
    pub open spec fn wf(self) -> bool {
        self.attempt <= MAX_ATTEMPTS
    }

    /// Whether an attempt that failed with `err` is repeated without JSON.
    pub open spec fn degrades(self, err: ChatError) -> bool {
        self.attempt == 1 && self.use_json && (err matches ChatError::Status { code, message, raw }
            && rejects_json(code, message@, raw@))
    }

    pub fn new(json_mode: bool) -> (r: ChatAttempts)
        ensures
            r == (ChatAttempts { attempt: 0, use_json: json_mode, json_degraded: false }),
    {
        ChatAttempts { attempt: 0, use_json: json_mode, json_degraded: false }
    }

    /// Begins an attempt.
    pub fn begin(&mut self)
        requires
            old(self).attempt < MAX_ATTEMPTS,
        ensures
            *final(self) == (ChatAttempts { attempt: (old(self).attempt + 1) as u32, ..*old(self) }),
    {
        self.attempt = self.attempt + 1;
    }

    /// Takes note of a failed attempt: without JSON at once if that was the
    /// matter, after a while if trying again may help, or not again.
    pub fn on_error(&mut self, err: &ChatError) -> (r: ChatStep)
        requires
            1 <= old(self).attempt <= MAX_ATTEMPTS,
        ensures
            *final(self) == if old(self).degrades(*err) {
                ChatAttempts { use_json: false, json_degraded: true, ..*old(self) }
            } else {
                *old(self)
            },
            r == if old(self).degrades(*err) {
                ChatStep::RetryNow
            } else if old(self).attempt < MAX_ATTEMPTS && err.retryable() {
                ChatStep::RetryAfter(
                    Delay { secs: backoff_secs(old(self).attempt as int) },
                )
            } else {
                ChatStep::GiveUp
            },
            r != ChatStep::GiveUp ==> final(self).attempt < MAX_ATTEMPTS,
    {
        if self.attempt == 1 && self.use_json && err.is_json_mode_rejection() {
            self.use_json = false;
            self.json_degraded = true;
            return ChatStep::RetryNow;
        }
        if self.attempt < MAX_ATTEMPTS && err.is_retryable() {
            return ChatStep::RetryAfter(backoff_delay(self.attempt));
        }
        ChatStep::GiveUp
    }
}

// ---------------------------------------------------------------------------
// Requests
// ---------------------------------------------------------------------------

/// Checks that a service can be asked, and brings its settings into range.
pub fn prepare_chat(provider: &AiProvider) -> (r: AppResult<AiProvider>)
    ensures
        match r {
            Ok(p) => p@ == provider@.sanitized() && provider@.root().len() > 0 && !blank(
                provider@.model,
            ),
            Err(e) => e@ == if provider@.root().len() == 0 {
                ErrorView::Ai("尚未配置 AI 服务的 Base URL"@)
            } else {
                ErrorView::Ai("尚未配置模型名称"@)
            },
        },
        r is Ok == (provider@.root().len() > 0 && !blank(provider@.model)),
{
    let p = provider.duplicate().sanitized();
    if p.root_url().as_str().unicode_len() == 0 {
        return Err(AppError::ai("尚未配置 AI 服务的 Base URL"));
    }
    if is_blank(p.model.as_str()) {
        return Err(AppError::ai("尚未配置模型名称"));
    }
    Ok(p)
}

/// The body of a request.
#[derive(Debug)]
pub struct ChatBody {
    pub model: String,
    pub messages: Vec<ChatMessage>,
    pub temperature: Single,
    /// The limit on the reply; none where it is zero.
    pub max_tokens: Option<u32>,
    /// Whether the reply is to be one JSON object.
    pub json_object: bool,
    pub stream: bool,
}

pub fn build_body(
    provider: &AiProvider,
    messages: &Vec<ChatMessage>,
    max_tokens: Option<u32>,
    json_mode: bool,
) -> (r: ChatBody)
    ensures
        r.model@ == trimmed(provider@.model),
        message_views(r.messages@) == message_views(messages@),
        r.temperature == provider@.temperature,
        r.max_tokens == match max_tokens {
            Some(n) => if n > 0 {
                Some(n)
            } else {
                None
            },
            None => if provider@.max_tokens > 0 {
                Some(provider@.max_tokens)
            } else {
                None
            },
        },
        r.json_object == json_mode,
        !r.stream,
{
    let limit: u32 = match max_tokens {
        Some(n) => n,
        None => provider.max_tokens,
    };
    let n: usize = messages.len();
    let mut copies: Vec<ChatMessage> = Vec::new();
    let mut i: usize = 0;
    while i < n
        invariant
            i <= n == messages@.len(),
            copies@.len() == i,
            forall|k: int| 0 <= k < i ==> (#[trigger] copies@[k])@ == messages@[k]@,
        decreases n - i,
    {
        copies.push(
            ChatMessage { role: messages[i].role.clone(), content: messages[i].content.clone() },
        );
        i += 1;
    }
    proof {
        assert(message_views(copies@) =~= message_views(messages@));
    }
    ChatBody {
        model: trim(provider.model.as_str()).to_owned(),
        messages: copies,
        temperature: provider.temperature,
        max_tokens: if limit > 0 {
            Some(limit)
        } else {
            None
        },
        json_object: json_mode,
        stream: false,
    }
}

/// Whether an address is reached without a proxy.
pub fn is_local_url(url: &str) -> (r: bool)
    ensures
        r == bypasses_proxy(url@),
{
    should_bypass_proxy(url)
}

// ---------------------------------------------------------------------------
// Replies
// ---------------------------------------------------------------------------

/// A reply of the model.
#[derive(Debug)]
pub struct ChatOutcome {
    pub content: String,
    pub model: String,
    pub usage: TokenUsage,
    pub latency_ms: u64,
    /// Whether the wish for JSON was given up on the way.
    pub json_degraded: bool,
}

/// What a reply of a service holds.
#[derive(Debug)]
pub struct ChatReply {
    /// The error it reports.
    pub error: Option<String>,
    /// Whether it holds an answer.
    pub has_choice: bool,
    pub content: String,
    pub reasoning: String,
    pub finish_reason: String,
    pub usage: TokenUsage,
    pub model: String,
}

#[verifier::ext_equal]
pub ghost struct ReplyView {
    pub error: Option<Seq<char>>,
    pub has_choice: bool,
    pub content: Seq<char>,
    pub reasoning: Seq<char>,
    pub finish_reason: Seq<char>,
    pub usage: TokenUsage,
    pub model: Seq<char>,
}

impl View for ChatReply {
    type V = ReplyView;

    open spec fn view(&self) -> ReplyView {
        ReplyView {
            error: opt_view(self.error),
            has_choice: self.has_choice,
            content: self.content@,
            reasoning: self.reasoning@,
            finish_reason: self.finish_reason@,
            usage: self.usage,
            model: self.model@,
        }
    }
}

/// A text, or the empty one.
pub open spec fn or_empty(t: Option<Seq<char>>) -> Seq<char> {
    match t {
        Some(s) => s,
        None => Seq::empty(),
    }
}

/// The error that a reply reports.
pub open spec fn reported_error(j: Json) -> Option<Seq<char>> {
    match field(j, "error"@) {
        Some(e) => Some(
            match text_field(e, "message"@) {
                Some(m) => m,
                None => match e {
                    Json::Text(m) => m,
                    _ => "未知错误"@,
                },
            },
        ),
        None => None,
    }
}

/// The first answer in a reply.
pub open spec fn first_choice(j: Json) -> Option<Json> {
    match list_field(j, "choices"@) {
        Some(a) => if a.len() > 0 {
            Some(a[0])
        } else {
            None
        },
        None => None,
    }
}

/// A count of tokens, of which the lower thirty-two bits are kept.
pub open spec fn token_count(j: Json, key: Seq<char>) -> u32 {
    (number_field(j, key) % 0x1_0000_0000) as u32
}

/// The tokens that a reply took.
pub open spec fn usage_in(j: Json) -> TokenUsage {
    match field(j, "usage"@) {
        Some(u) => TokenUsage {
            prompt_tokens: token_count(u, "prompt_tokens"@),
            completion_tokens: token_count(u, "completion_tokens"@),
            total_tokens: token_count(u, "total_tokens"@),
        },
        None => TokenUsage { prompt_tokens: 0, completion_tokens: 0, total_tokens: 0 },
    }
}

/// The text under `inner` of an answer's message.
pub open spec fn message_text(choice: Option<Json>, inner: Seq<char>) -> Seq<char> {
    match choice {
        Some(c) => or_empty(text_in(c, "message"@, inner)),
        None => Seq::empty(),
    }
}

/// What a reply holds.
pub open spec fn reply_in(j: Json) -> ReplyView {
    let c = first_choice(j);
    ReplyView {
        error: reported_error(j),
        has_choice: c is Some,
        content: message_text(c, "content"@),
        reasoning: message_text(c, "reasoning_content"@),
        finish_reason: match c {
            Some(x) => or_empty(text_field(x, "finish_reason"@)),
            None => Seq::empty(),
        },
        usage: usage_in(j),
        model: or_empty(text_field(j, "model"@)),
    }
}

fn text_or_empty(t: Option<&str>) -> (r: String)
    ensures
        r@ == or_empty(
            match t {
                Some(s) => Some(s@),
                None => None,
            },
        ),
{
    match t {
        Some(s) => s.to_owned(),
        None => String::new(),
    }
}

fn count_tokens(v: &serde_json::Value, key: &str) -> (r: u32)
    ensures
        r == token_count(json_of(*v), key@),
{
    (get_number(v, key) % 0x1_0000_0000) as u32
}

/// Reads what a reply holds.
pub fn read_reply(v: &serde_json::Value) -> (r: ChatReply)
    ensures
        r@ == reply_in(json_of(*v)),
{
    let error = match get(v, "error") {
        Some(e) => Some(
            match get_text(e, "message") {
                Some(m) => m.to_owned(),
                None => match as_str(e) {
                    Some(m) => m.to_owned(),
                    None => "未知错误".to_owned(),
                },
            },
        ),
        None => None,
    };
    let mut has_choice: bool = false;
    let mut content = String::new();
    let mut reasoning = String::new();
    let mut finish_reason = String::new();
    if let Some(a) = get_list(v, "choices") {
        proof {
            assert(jsons_of(a@).len() == a@.len());
        }
        if a.len() > 0 {
            let c = &a[0];
            proof {
                assert(jsons_of(a@)[0] == json_of(*c));
            }
            has_choice = true;
            content = text_or_empty(nested_text(c, "message", "content"));
            reasoning = text_or_empty(nested_text(c, "message", "reasoning_content"));
            finish_reason = text_or_empty(get_text(c, "finish_reason"));
        }
    }
    let usage = match get(v, "usage") {
        Some(u) => TokenUsage {
            prompt_tokens: count_tokens(u, "prompt_tokens"),
            completion_tokens: count_tokens(u, "completion_tokens"),
            total_tokens: count_tokens(u, "total_tokens"),
        },
        None => TokenUsage::default(),
    };
    ChatReply {
        error,
        has_choice,
        content,
        reasoning,
        finish_reason,
        usage,
        model: text_or_empty(get_text(v, "model")),
    }
}

/// The text of an answer: its content, or where that is empty what a reasoning
/// model wrote elsewhere.
pub open spec fn answer_text(r: ReplyView) -> Seq<char> {
    if blank(r.content) {
        r.reasoning
    } else {
        r.content
    }
}

/// The error that a reply amounts to, if it does.
pub open spec fn reply_error(r: ReplyView) -> Option<Seq<char>> {
    match r.error {
        Some(m) => Some("接口返回错误："@ + m),
        None => if !r.has_choice {
            Some("接口返回中没有 choices 字段，可能不是 OpenAI 兼容接口"@)
        } else if !blank(answer_text(r)) {
            None
        } else if r.finish_reason == "length"@ {
            Some("模型输出被 max_tokens 截断且内容为空，请调大 max_tokens"@)
        } else {
            Some("模型返回内容为空"@)
        },
    }
}

/// Takes the answer from what a reply holds.
pub fn judge_reply(reply: ChatReply) -> (r: AppResult<ChatOutcome>)
    ensures
        match r {
            Ok(o) => reply_error(reply@) is None && o.content@ == answer_text(reply@) && o.model@
                == reply@.model && o.usage == reply@.usage && o.latency_ms == 0 && !o.json_degraded,
            Err(e) => reply_error(reply@) matches Some(m) && e@ == ErrorView::Ai(m),
        },
{
    if let Some(m) = reply.error {
        let mut s = "接口返回错误：".to_owned();
        s.append(m.as_str());
        return Err(AppError::Ai(s));
    }
    if !reply.has_choice {
        return Err(AppError::ai("接口返回中没有 choices 字段，可能不是 OpenAI 兼容接口"));
    }
    let content = if is_blank(reply.content.as_str()) {
        reply.reasoning
    } else {
        reply.content
    };
    if is_blank(content.as_str()) {
        if same(reply.finish_reason.as_str(), "length") {
            return Err(AppError::ai("模型输出被 max_tokens 截断且内容为空，请调大 max_tokens"));
        }
        return Err(AppError::ai("模型返回内容为空"));
    }
    Ok(
        ChatOutcome {
            content,
            model: reply.model,
            usage: reply.usage,
            latency_ms: 0,
            json_degraded: false,
        },
    )
}

/// Takes the answer from the text of a reply.
pub fn parse_chat_response(text: &str) -> (r: AppResult<ChatOutcome>)
    ensures
        match parsed(text@) {
            Err(why) => r matches Err(e) && e@ == ErrorView::Ai(
                "接口返回不是合法 JSON："@ + why,
            ),
            Ok(j) => match r {
                Ok(o) => reply_error(reply_in(j)) is None && o.content@ == answer_text(reply_in(j))
                    && o.model@ == reply_in(j).model && o.usage == reply_in(j).usage
                    && o.latency_ms == 0 && !o.json_degraded,
                Err(e) => reply_error(reply_in(j)) matches Some(m) && e@ == ErrorView::Ai(m),
            },
        },
{
    match parse(text) {
        Ok(v) => judge_reply(read_reply(&v)),
        Err(why) => {
            let mut s = "接口返回不是合法 JSON：".to_owned();
            s.append(why.as_str());
            Err(AppError::Ai(s))
        },
    }
}

/// The outcome of one exchange: an answer, or why there is none.
pub fn receive(code: u16, text: &str) -> (r: Result<ChatOutcome, ChatError>)
    ensures
        if 200 <= code <= 299 {
            match r {
                Ok(o) => parsed(text@) matches Ok(j) && reply_error(reply_in(j)) is None
                    && o.content@ == answer_text(reply_in(j)) && o.model@ == reply_in(j).model
                    && o.usage == reply_in(j).usage && o.latency_ms == 0 && !o.json_degraded,
                Err(ChatError::Transport(e)) => match parsed(text@) {
                    Err(why) => e@ == ErrorView::Ai("接口返回不是合法 JSON："@ + why),
                    Ok(j) => reply_error(reply_in(j)) matches Some(m) && e@ == ErrorView::Ai(m),
                },
                Err(ChatError::Status { .. }) => false,
            }
        } else {
            r matches Err(ChatError::Status { code: c, message, raw }) && c == code && raw@ == text@
                && message@ == or_empty(api_error(text@))
        },
{
    if !is_success(code) {
        let message = match extract_api_error(text) {
            Some(m) => m,
            None => String::new(),
        };
        return Err(ChatError::Status { code, message, raw: text.to_owned() });
    }
    match parse_chat_response(text) {
        Ok(o) => Ok(o),
        Err(e) => Err(ChatError::Transport(e)),
    }
}

// ---------------------------------------------------------------------------
// Lists of models
// ---------------------------------------------------------------------------

/// The name of a model in a list: its id, or where it has none its name.
pub open spec fn model_name(j: Json) -> Seq<char> {
    match field(j, "id"@) {
        Some(x) => or_empty(text_of(x)),
        None => or_empty(text_field(j, "name"@)),
    }
}

/// The names in a list of models.
pub open spec fn model_names(list: Seq<Json>) -> Seq<Seq<char>>
    decreases list.len(),
{
    if list.len() == 0 {
        Seq::empty()
    } else if model_name(list.last()).len() == 0 {
        model_names(list.drop_last())
    } else {
        model_names(list.drop_last()).push(model_name(list.last()))
    }
}

/// The names under a key.
pub open spec fn models_under(j: Json, key: Seq<char>) -> Seq<Seq<char>> {
    match list_field(j, key) {
        Some(a) => model_names(a),
        None => Seq::empty(),
    }
}

fn collect_models(v: &serde_json::Value, key: &str) -> (r: Vec<String>)
    ensures
        views(r@) == models_under(json_of(*v), key@),
{
    let mut out: Vec<String> = Vec::new();
    proof {
        assert(views(out@) =~= Seq::empty());
    }
    if let Some(a) = get_list(v, key) {
        let ghost all = jsons_of(a@);
        let n: usize = a.len();
        let mut i: usize = 0;
        proof {
            assert(views(out@) =~= model_names(all.take(0)));
        }
        while i < n
            invariant
                i <= n == a@.len(),
                all == jsons_of(a@),
                views(out@) == model_names(all.take(i as int)),
            decreases n - i,
        {
            proof {
                assert(all.take(i + 1).drop_last() =~= all.take(i as int));
                assert(all[i as int] == json_of(a@[i as int]));
            }
            let ghost before = views(out@);
            let name = match get(&a[i], "id") {
                Some(x) => text_or_empty(as_str(x)),
                None => text_or_empty(get_text(&a[i], "name")),
            };
            let ghost nv = name@;
            if name.as_str().unicode_len() > 0 {
                out.push(name);
                proof {
                    assert(views(out@) =~= before.push(nv));
                }
            }
            i += 1;
        }
        proof {
            assert(all.take(n as int) =~= all);
        }
    }
    out
}

/// The error for a list of models that was refused.
pub open spec fn models_refused(code: u16, body: Seq<char>) -> Seq<char> {
    let m = or_empty(api_error(body));
    "拉取模型列表失败（HTTP "@ + decimal(code as nat) + "）"@ + if m.len() == 0 {
        Seq::empty()
    } else {
        "："@ + m
    }
}

/// The models in a service's answer, in order and each once: those of OpenAI
/// (`data`) and of Ollama (`models`).
pub fn read_models(code: u16, body: &str) -> (r: AppResult<Vec<String>>)
    ensures
        if 200 <= code <= 299 {
            match parsed(body@) {
                Err(why) => r matches Err(e) && e@ == ErrorView::Ai(
                    "模型列表返回不是合法 JSON："@ + why,
                ),
                Ok(j) => r matches Ok(v) && ascending(views(v@)) && views(v@).to_set() == (
                models_under(j, "data"@) + models_under(j, "models"@)).to_set(),
            }
        } else {
            r matches Err(e) && e@ == ErrorView::Ai(models_refused(code, body@))
        },
{
    if !is_success(code) {
        let mut s = "拉取模型列表失败（HTTP ".to_owned();
        s.append(decimal_of(code as u128).as_str());
        s.append("）");
        let ghost head = s@;
        let mut said: bool = false;
        if let Some(m) = extract_api_error(body) {
            if m.as_str().unicode_len() > 0 {
                said = true;
                s.append("：");
                s.append(m.as_str());
                proof {
                    assert(s@ =~= head + ("："@ + m@));
                }
            }
        }
        proof {
            if !said {
                assert(s@ =~= head + Seq::empty());
            }
        }
        return Err(AppError::Ai(s));
    }
    match parse(body) {
        Ok(v) => {
            let mut all = collect_models(&v, "data");
            let mut more = collect_models(&v, "models");
            let ghost a = views(all@);
            let ghost b = views(more@);
            all.append(&mut more);
            proof {
                assert(views(all@) =~= a + b);
            }
            Ok(sorted_distinct(&all))
        },
        Err(why) => {
            let mut s = "模型列表返回不是合法 JSON：".to_owned();
            s.append(why.as_str());
            Err(AppError::Ai(s))
        },
    }
}

// ---------------------------------------------------------------------------
// Trying out a service
// ---------------------------------------------------------------------------

/// The result of trying out a service.
#[derive(Debug)]
pub struct ConnectionTest {
    pub ok: bool,
    pub latency_ms: u64,
    pub model: String,
    pub sample: String,
    pub error: Option<String>,
    pub models: Vec<String>,
}

/// The settings to try out a service with: no longer than half a minute, and
/// without the wish for JSON.
pub fn probe_provider(provider: &AiProvider) -> (r: AiProvider)
    ensures
        r@ == (AiProviderView {
            timeout: if provider@.sanitized().timeout < 30 {
                provider@.sanitized().timeout
            } else {
                30
            },
            json_mode: false,
            ..provider@.sanitized()
        }),
{
    let mut p = provider.duplicate().sanitized();
    if p.timeout_secs >= 30 {
        p.timeout_secs = 30;
    }
    p.json_mode = false;
    p
}

/// What a service is asked when it is tried out.
pub fn probe_messages() -> (r: Vec<ChatMessage>)
    ensures
        message_views(r@) == seq![
            MessageView {
                role: "system"@,
                content: "你是一个连通性测试端点，只按用户要求回复。"@,
            },
            MessageView { role: "user"@, content: "请只回复两个字：正常"@ },
        ],
{
    let mut out: Vec<ChatMessage> = Vec::new();
    out.push(ChatMessage::system("你是一个连通性测试端点，只按用户要求回复。"));
    out.push(ChatMessage::user("请只回复两个字：正常"));
    proof {
        assert(message_views(out@)[0] == out@[0]@);
        assert(message_views(out@)[1] == out@[1]@);
        assert(message_views(out@) =~= seq![out@[0]@, out@[1]@]);
    }
    out
}

/// The result of trying out a service, from its answer.
pub fn connection_result(
    provider: &AiProvider,
    outcome: AppResult<ChatOutcome>,
    latency_ms: u64,
    models: Vec<String>,
) -> (r: ConnectionTest)
    ensures
        r.latency_ms == latency_ms,
        r.models == models,
        r.ok == (outcome is Ok),
        match outcome {
            Ok(o) => r.error is None && r.sample@ == truncated(trimmed(o.content@), 200)
                && r.model@ == if o.model@.len() == 0 {
                provider@.model
            } else {
                o.model@
            },
            Err(e) => opt_view(r.error) == Some(e@.message()) && r.sample@.len() == 0 && r.model@
                == provider@.model,
        },
{
    match outcome {
        Ok(o) => {
            let sample = truncate_chars(trim(o.content.as_str()), 200);
            ConnectionTest {
                ok: true,
                latency_ms,
                model: if o.model.as_str().unicode_len() == 0 {
                    provider.model.clone()
                } else {
                    o.model
                },
                sample,
                error: None,
                models,
            }
        },
        Err(e) => ConnectionTest {
            ok: false,
            latency_ms,
            model: provider.model.clone(),
            sample: String::new(),
            error: Some(e.message()),
            models,
        },
    }
}

// ---------------------------------------------------------------------------
// Laws
// ---------------------------------------------------------------------------

/// The answer is the content of the first choice's message, with the tokens that the
/// reply says it took, and under the model's own name.
pub proof fn law_answer_is_the_first_choice(
    j: Json,
    choices: Seq<Json>,
    message: Json,
    content: Seq<char>,
    usage: Json,
    n: int,
)
    requires
        field(j, "choices"@) == Some(Json::List(choices)),
        choices.len() > 0,
        field(choices[0], "message"@) == Some(message),
        field(message, "content"@) == Some(Json::Text(content)),
        0 <= n < 0x1_0000_0000,
    ensures
        reply_in(j).has_choice,
        reply_in(j).content == content,
        field(j, "error"@) is None && !blank(content) ==> reply_error(reply_in(j)) is None
            && answer_text(reply_in(j)) == content,
        field(j, "usage"@) == Some(usage) && field(usage, "prompt_tokens"@) == Some(
            Json::Number(Some(n)),
        ) ==> reply_in(j).usage.prompt_tokens == n,
        field(j, "usage"@) == Some(usage) && field(usage, "completion_tokens"@) == Some(
            Json::Number(Some(n)),
        ) ==> reply_in(j).usage.completion_tokens == n,
        field(j, "usage"@) == Some(usage) && field(usage, "total_tokens"@) == Some(
            Json::Number(Some(n)),
        ) ==> reply_in(j).usage.total_tokens == n,
        field(j, "model"@) == Some(Json::Text(content)) ==> reply_in(j).model == content,
{
}

/// A reply that reports an error, has no choice or says nothing is an error; where only
/// the reasoning says something, that is the answer.
pub proof fn law_empty_replies_are_errors(r: ReplyView, m: Seq<char>)
    ensures
        r.error == Some(m) ==> reply_error(r) == Some("接口返回错误："@ + m),
        !r.has_choice ==> reply_error(r) is Some,
        blank(r.content) && blank(r.reasoning) ==> reply_error(r) is Some,
        r.error is None && r.has_choice && (!blank(r.content) || !blank(r.reasoning))
            ==> reply_error(r) is None,
        !blank(r.content) ==> answer_text(r) == r.content,
        blank(r.content) ==> answer_text(r) == r.reasoning,
{
}

/// What may pass is tried again: too many requests, failures of the service, and
/// trouble on the way. What the request itself is to blame for is not.
pub proof fn law_only_passing_trouble_is_tried_again(err: ChatError)
    ensures
        err matches ChatError::Status { code, .. } ==> {
            &&& code == 429 ==> err.retryable()
            &&& 500 <= code <= 599 ==> err.retryable()
            &&& 400 <= code < 429 ==> !err.retryable()
            &&& 430 <= code < 500 ==> !err.retryable()
        },
        err is Transport ==> err.retryable(),
{
}

/// A service that does not take the wish for JSON is asked without it, once, and only
/// if it says that this was the matter.
pub proof fn law_json_is_given_up_once(a: ChatAttempts, err: ChatError)
    ensures
        a.degrades(err) ==> a.use_json && a.attempt == 1 && (err matches ChatError::Status {
            code,
            ..
        } && code == 400),
        !a.use_json ==> !a.degrades(err),
        err is Transport ==> !a.degrades(err),
        err matches ChatError::Status { code, message, raw } ==> a.use_json && a.attempt == 1 && code
            == 400 && has_text(raw@, "response_format"@) ==> a.degrades(err),
{
}

/// Waiting is one, two and four seconds, and eight from then on.
pub proof fn law_waits_double(attempt: int)
    ensures
        backoff_secs(1) == 1,
        1 <= attempt <= 3 ==> backoff_secs(attempt + 1) == 2 * backoff_secs(attempt),
        attempt >= 4 ==> backoff_secs(attempt) == 8,
{
}

/// All models that a service names are listed, and nothing else.
pub proof fn law_models_are_listed_by_name(list: Seq<Json>)
    ensures
        model_names(list) == list.map_values(|x: Json| model_name(x)).filter(
            |n: Seq<char>| n.len() > 0,
        ),
        forall|i: int|
            0 <= i < list.len() ==> (field(list[i], "id"@) matches Some(Json::Text(id)) ==> model_name(
                #[trigger] list[i],
            ) == id),
    decreases list.len(),
{
    reveal(Seq::filter);
    let f = |x: Json| model_name(x);
    let p = |n: Seq<char>| n.len() > 0;
    if list.len() > 0 {
        law_models_are_listed_by_name(list.drop_last());
        assert(list.map_values(f).drop_last() =~= list.drop_last().map_values(f));
        assert(list.map_values(f).last() == model_name(list.last()));
    } else {
        assert(list.map_values(f) =~= Seq::empty());
    }
}

/// A request asks the model that was set.
pub proof fn law_requests_ask_the_model_that_was_set(
    provider: &AiProvider,
    messages: &Vec<ChatMessage>,
    max_tokens: Option<u32>,
    json_mode: bool,
    r: ChatBody,
)
    requires
        call_ensures(build_body, (provider, messages, max_tokens, json_mode), r),
    ensures
        r.model@ == trimmed(provider.model@),
        r.json_object == json_mode,
        r.messages@.len() == messages@.len(),
        forall|i: int|
            0 <= i < messages@.len() ==> (#[trigger] r.messages@[i]).role@ == messages@[i].role@
                && r.messages@[i].content@ == messages@[i].content@,
        r.temperature == provider.temperature,
{
    assert(message_views(r.messages@).len() == message_views(messages@).len());
    assert forall|i: int|
        0 <= i < messages@.len() implies (#[trigger] r.messages@[i]).role@ == messages@[i].role@
        && r.messages@[i].content@ == messages@[i].content@ by {
        assert(message_views(r.messages@)[i] == message_views(messages@)[i]);
    }
}

/// What [`receive`] makes of an answer: the content of a success, and an error with its
/// status of anything else.
pub proof fn law_only_successes_are_answers(
    code: u16,
    text: &str,
    r: Result<ChatOutcome, ChatError>,
    j: Json,
    choices: Seq<Json>,
    message: Json,
    content: Seq<char>,
)
    requires
        call_ensures(receive, (code, text), r),
    ensures
        !(200 <= code <= 299) ==> (r matches Err(ChatError::Status { code: c, .. }) && c == code),
        200 <= code <= 299 && parsed(text@) is Err ==> r is Err,
        200 <= code <= 299 && parsed(text@) == Ok::<Json, Seq<char>>(j) && field(j, "error"@) is None
            && field(j, "choices"@) == Some(Json::List(choices)) && choices.len() > 0 && field(
            choices[0],
            "message"@,
        ) == Some(message) && field(message, "content"@) == Some(Json::Text(content)) && !blank(
            content,
        ) ==> (r matches Ok(o) && o.content@ == content),
{
    if field(j, "choices"@) == Some(Json::List(choices)) && choices.len() > 0 && field(
        choices[0],
        "message"@,
    ) == Some(message) && field(message, "content"@) == Some(Json::Text(content)) {
        law_answer_is_the_first_choice(j, choices, message, content, Json::Null, 0);
    }
}

/// What [`ChatAttempts::on_error`] decides: a failure that may pass is tried again after
/// a while, up to four times in all; other failures are not.
pub proof fn law_requests_are_tried_four_times(a: &mut ChatAttempts, err: &ChatError, r: ChatStep)
    requires
        call_ensures(ChatAttempts::on_error, (a, err), r),
        !old(a).use_json,
    ensures
        old(a).attempt >= 4 ==> r == ChatStep::GiveUp,
        !err.retryable() ==> r == ChatStep::GiveUp,
        1 <= old(a).attempt <= 3 && err.retryable() ==> r == ChatStep::RetryAfter(
            Delay { secs: backoff_secs(old(a).attempt as int) },
        ),
        *final(a) == *old(a),
{
}

/// What a service said is told after the hint and the status: whole up to 300
/// characters, and otherwise the first 300 of them.
pub proof fn law_refusals_are_told(hint: Seq<char>, code: u16, message: Seq<char>)
    ensures
        blank(message) ==> status_text(hint, code, message) == hint + "（HTTP "@ + decimal(
            code as nat,
        ) + "）"@,
        !blank(message) && trimmed(message).len() <= 300 ==> status_text(hint, code, message)
            == hint + "（HTTP "@ + decimal(code as nat) + "）"@ + ("："@ + trimmed(message)),
        trimmed(message).len() > 300 ==> status_text(hint, code, message) == hint + "（HTTP "@
            + decimal(code as nat) + "）"@ + ("："@ + trimmed(message).take(300).push('…')),
{
    crate::text::lemma_trimmed_blank(message);
    let head = hint + "（HTTP "@ + decimal(code as nat) + "）"@;
    assert(head + Seq::<char>::empty() =~= head);
}

/// The hint goes by the status: a key that is not accepted, an address that does not
/// exist, a limit that was reached, a text that is too long, or none of these.
pub proof fn law_hints_go_by_the_status(code: u16)
    ensures
        code == 401 || code == 403 ==> chat_hint(code) == "鉴权失败，请检查 API Key 是否正确、是否已过期"@,
        code == 404 ==> chat_hint(code)
            == "接口不存在，请检查 Base URL 是否填写正确（应形如 https://api.deepseek.com/v1，不要带 /chat/completions）"@,
        code == 429 ==> chat_hint(code) == "请求过于频繁或额度不足，请稍后重试或检查账户余额"@,
        code == 413 ==> chat_hint(code) == "内容过长被拒绝，可调小「上下文上限」"@,
        code >= 500 || code == 400 ==> chat_hint(code) == "服务返回错误"@,
{
}

} // verus!
