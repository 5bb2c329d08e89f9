//! Self-check: what works on this machine, and what to do about what does not.

use vstd::prelude::*;
use vstd::string::*;
use crate::ai::client::ConnectionTest;
use crate::asr::client::AsrConnectionTest;
use crate::audio::capture::AudioSourceInfo;
use crate::audio::capture::SourceInfoView;
use crate::audio::capture::SourceKind;
use crate::audio::capture::source_views;
use crate::num::rounded;
use crate::settings::AiSettings;
use crate::settings::AiSettingsView;
use crate::settings::AsrSettings;
use crate::settings::AsrSettingsView;
use crate::text::blank;
use crate::text::copy_opt;
use crate::text::decimal;
use crate::text::decimal_of;
use crate::text::is_blank;
use crate::text::join;
use crate::text::joined;
use crate::text::opt_view;
use crate::text::same;
use crate::text::views;

verus! {

// ---------------------------------------------------------------------------
// Arguments
// ---------------------------------------------------------------------------

/// What the command line asks for.
#[derive(Debug)]
pub struct CheckArgs {
    pub json: bool,
    pub with_ai: bool,
    pub data_dir: Option<String>,
}

pub open spec fn named(args: Seq<Seq<char>>, name: Seq<char>) -> bool {
    args.contains(name)
}

/// What follows the first argument with a name, from `from` on.
pub open spec fn value_after(args: Seq<Seq<char>>, name: Seq<char>, from: int) -> Option<Seq<char>>
    decreases args.len() - from,
{
    if from < 0 || from >= args.len() {
        None
    } else if args[from] == name {
        if from + 1 < args.len() {
            Some(args[from + 1])
        } else {
            None
        }
    } else {
        value_after(args, name, from + 1)
    }
}

fn has_arg(args: &Vec<String>, name: &str) -> (r: bool)
    ensures
        r == named(views(args@), name@),
{
    let n: usize = args.len();
    let mut i: usize = 0;
    while i < n
        invariant
            i <= n == args@.len(),
            forall|j: int| 0 <= j < i ==> #[trigger] views(args@)[j] != name@,
        decreases n - i,
    {
        proof {
            assert(views(args@)[i as int] == args@[i as int]@);
        }
        if same(args[i].as_str(), name) {
            return true;
        }
        i += 1;
    }
    false
}

pub fn parse_args(args: &Vec<String>) -> (r: CheckArgs)
    ensures
        r.json == named(views(args@), "--json"@),
        r.with_ai == named(views(args@), "--ai"@),
        opt_view(r.data_dir) == value_after(views(args@), "--data-dir"@, 0),
{
    let json: bool = has_arg(args, "--json");
    let with_ai: bool = has_arg(args, "--ai");
    let n: usize = args.len();
    let ghost all = views(args@);
    let mut i: usize = 0;
    while i < n
        invariant
            i <= n == args@.len(),
            all == views(args@),
            json == named(all, "--json"@),
            with_ai == named(all, "--ai"@),
            value_after(all, "--data-dir"@, 0) == value_after(all, "--data-dir"@, i as int),
        decreases n - i,
    {
        proof {
            assert(all[i as int] == args@[i as int]@);
        }
        if same(args[i].as_str(), "--data-dir") {
            let data_dir = if i + 1 < n {
                proof {
                    assert(all[i + 1] == args@[i + 1]@);
                }
                Some(args[i + 1].clone())
            } else {
                None
            };
            return CheckArgs { json, with_ai, data_dir };
        }
        i += 1;
    }
    CheckArgs { json, with_ai, data_dir: None }
}

/// Whether the command line asks for the self-check.
pub fn wants_check(args: &Vec<String>) -> (r: bool)
    ensures
        r == (named(views(args@), "--check"@) || named(views(args@), "-c"@) || named(
            views(args@),
            "check"@,
        )),
{
    has_arg(args, "--check") || has_arg(args, "-c") || has_arg(args, "check")
}

// ---------------------------------------------------------------------------
// Lines
// ---------------------------------------------------------------------------

/// A finding.
#[derive(Debug)]
pub struct Line {
    pub label: String,
    pub value: String,
    /// Whether it is as it should be; nothing where that is not the question.
    pub ok: Option<bool>,
    pub hint: Option<String>,
}

/// Model of [`Line`].
#[verifier::ext_equal]
pub ghost struct LineView {
    pub label: Seq<char>,
    pub value: Seq<char>,
    pub ok: Option<bool>,
    pub hint: Option<Seq<char>>,
}

impl View for Line {
    type V = LineView;

    open spec fn view(&self) -> LineView {
        LineView {
            label: self.label@,
            value: self.value@,
            ok: self.ok,
            hint: opt_view(self.hint),
        }
    }
}

pub open spec fn line_views(v: Seq<Line>) -> Seq<LineView> {
    v.map_values(|l: Line| l@)
}

/// A finding with a hint where it is not as it should be.
pub open spec fn checked(label: Seq<char>, value: Seq<char>, ok: bool, hint: Seq<char>) -> LineView {
    LineView {
        label,
        value,
        ok: Some(ok),
        hint: if ok {
            None
        } else {
            Some(hint)
        },
    }
}

fn checked_line(label: &str, value: String, ok: bool, hint: &str) -> (r: Line)
    ensures
        r@ == checked(label@, value@, ok, hint@),
{
    Line {
        label: label.to_owned(),
        value,
        ok: Some(ok),
        hint: if ok {
            None
        } else {
            Some(hint.to_owned())
        },
    }
}

pub open spec fn noted(label: Seq<char>, value: Seq<char>) -> LineView {
    LineView { label, value, ok: None, hint: None }
}

fn noted_line(label: &str, value: String) -> (r: Line)
    ensures
        r@ == noted(label@, value@),
{
    Line { label: label.to_owned(), value, ok: None, hint: None }
}

/// "名称 · 模型 · 地址".
pub open spec fn service_text(name: Seq<char>, model: Seq<char>, url: Seq<char>) -> Seq<char> {
    name + " · "@ + model + " · "@ + url
}

pub fn describe_service(name: &str, model: &str, url: &str) -> (r: String)
    ensures
        r@ == service_text(name@, model@, url@),
{
    let mut s = name.to_owned();
    s.append(" · ");
    s.append(model);
    s.append(" · ");
    s.append(url);
    s
}

pub open spec fn incomplete_text(name: Seq<char>) -> Seq<char> {
    name + " · 配置不完整（缺少 Base URL 或模型名）"@
}

/// What is said of the recognition service.
pub open spec fn asr_value(s: AsrSettingsView) -> Seq<char> {
    match s.active_index(0) {
        Some(i) => {
            let p = s.providers[i];
            if s.ready() {
                service_text(p.name, p.model, p.endpoint())
            } else {
                incomplete_text(p.name)
            }
        },
        None => "未配置"@,
    }
}

pub const ASR_HINT: &'static str =
    "打开应用 → 设置 → 语音识别，选择一个服务商并填入 API Key；想完全离线可本地起 whisper.cpp server 或 faster-whisper-server";

fn asr_line(s: &AsrSettings) -> (r: Line)
    ensures
        r@ == checked("语音识别服务"@, asr_value(s@), s@.ready(), ASR_HINT@),
{
    let ready: bool = s.ready();
    let value = match s.active() {
        Some(p) => if ready {
            describe_service(p.name.as_str(), p.model.as_str(), p.endpoint().as_str())
        } else {
            let mut v = p.name.clone();
            v.append(" · 配置不完整（缺少 Base URL 或模型名）");
            v
        },
        None => "未配置".to_owned(),
    };
    checked_line("语音识别服务", value, ready, ASR_HINT)
}

/// What is said of the language model.
pub open spec fn ai_value(s: AiSettingsView) -> Seq<char> {
    match s.active_index(0) {
        Some(i) => {
            let p = s.providers[i];
            if s.ready() {
                service_text(p.name, p.model, p.root())
            } else {
                incomplete_text(p.name)
            }
        },
        None => "未配置"@,
    }
}

pub const AI_HINT: &'static str = "打开应用 → 设置 → AI 接口，选择服务商并填入 API Key";

fn ai_line(s: &AiSettings) -> (r: Line)
    ensures
        r@ == checked("AI 接口"@, ai_value(s@), s@.ready(), AI_HINT@),
{
    let ready: bool = s.ready();
    let value = match s.active() {
        Some(p) => if ready {
            describe_service(p.name.as_str(), p.model.as_str(), p.root_url().as_str())
        } else {
            let mut v = p.name.clone();
            v.append(" · 配置不完整（缺少 Base URL 或模型名）");
            v
        },
        None => "未配置".to_owned(),
    };
    checked_line("AI 接口", value, ready, AI_HINT)
}

/// The labels of the sources of a kind that can be used.
pub open spec fn usable_labels(sources: Seq<SourceInfoView>, kind: SourceKind) -> Seq<Seq<char>>
    decreases sources.len(),
{
    if sources.len() == 0 {
        Seq::empty()
    } else {
        let before = usable_labels(sources.drop_last(), kind);
        if sources.last().available && sources.last().kind == kind {
            before.push(sources.last().label)
        } else {
            before
        }
    }
}

fn labels_of(sources: &Vec<AudioSourceInfo>, kind: SourceKind) -> (r: Vec<String>)
    ensures
        views(r@) == usable_labels(source_views(sources@), kind),
{
    let ghost all = source_views(sources@);
    let n: usize = sources.len();
    let mut out: Vec<String> = Vec::new();
    let mut i: usize = 0;
    proof {
        assert(views(out@) =~= usable_labels(all.take(0), kind));
    }
    while i < n
        invariant
            i <= n == sources@.len(),
            all == source_views(sources@),
            views(out@) == usable_labels(all.take(i as int), kind),
        decreases n - i,
    {
        let ghost before = out@;
        proof {
            assert(all.take(i + 1).drop_last() =~= all.take(i as int));
            assert(all[i as int] == sources@[i as int]@);
        }
        if sources[i].available && sources[i].kind == kind {
            out.push(sources[i].label.clone());
            proof {
                assert(views(out@) =~= views(before).push(out@.last()@));
            }
        }
        i += 1;
    }
    proof {
        assert(all.take(n as int) =~= all);
    }
    out
}

/// What the first source for the system's sound says of itself.
pub open spec fn loopback_note(sources: Seq<SourceInfoView>, from: int) -> Option<Seq<char>>
    decreases sources.len() - from,
{
    if from < 0 || from >= sources.len() {
        None
    } else if sources[from].kind == SourceKind::Loopback {
        sources[from].note
    } else {
        loopback_note(sources, from + 1)
    }
}

fn find_loopback_note(sources: &Vec<AudioSourceInfo>) -> (r: Option<String>)
    ensures
        opt_view(r) == loopback_note(source_views(sources@), 0),
{
    let ghost all = source_views(sources@);
    let n: usize = sources.len();
    let mut i: usize = 0;
    while i < n
        invariant
            i <= n == sources@.len(),
            all == source_views(sources@),
            loopback_note(all, 0) == loopback_note(all, i as int),
        decreases n - i,
    {
        proof {
            assert(all[i as int] == sources@[i as int]@);
        }
        if sources[i].kind == SourceKind::Loopback {
            return copy_opt(&sources[i].note);
        }
        i += 1;
    }
    None
}

pub const NO_MIC_HINT: &'static str =
    "无音频输入设备。容器/服务器环境属于正常现象，请在桌面环境运行";

pub open spec fn mic_finding(sources: Seq<SourceInfoView>) -> LineView {
    let labels = usable_labels(sources, SourceKind::Microphone);
    checked(
        "麦克风"@,
        if labels.len() == 0 {
            "未检测到可用麦克风"@
        } else {
            joined(labels, "、"@)
        },
        labels.len() > 0,
        NO_MIC_HINT@,
    )
}

fn mic_line(sources: &Vec<AudioSourceInfo>) -> (r: Line)
    ensures
        r@ == mic_finding(source_views(sources@)),
{
    let labels = labels_of(sources, SourceKind::Microphone);
    proof {
        assert(views(labels@).len() == labels@.len());
    }
    if labels.len() == 0 {
        checked_line("麦克风", "未检测到可用麦克风".to_owned(), false, NO_MIC_HINT)
    } else {
        checked_line("麦克风", join(&labels, "、"), true, NO_MIC_HINT)
    }
}

pub open spec fn loopback_finding(sources: Seq<SourceInfoView>) -> LineView {
    let labels = usable_labels(sources, SourceKind::Loopback);
    checked(
        "系统内录"@,
        if labels.len() == 0 {
            "未检测到可用的系统内录源"@
        } else {
            joined(labels, "、"@)
        },
        labels.len() > 0,
        match loopback_note(sources, 0) {
            Some(note) => note,
            None => "只使用麦克风也可以正常开会"@,
        },
    )
}

fn loopback_line(sources: &Vec<AudioSourceInfo>) -> (r: Line)
    ensures
        r@ == loopback_finding(source_views(sources@)),
{
    let labels = labels_of(sources, SourceKind::Loopback);
    proof {
        assert(views(labels@).len() == labels@.len());
    }
    if labels.len() == 0 {
        let hint = match find_loopback_note(sources) {
            Some(note) => note,
            None => "只使用麦克风也可以正常开会".to_owned(),
        };
        checked_line(
            "系统内录",
            "未检测到可用的系统内录源".to_owned(),
            false,
            hint.as_str(),
        )
    } else {
        checked_line("系统内录", join(&labels, "、"), true, "")
    }
}

/// What was found out about the machine.
#[derive(Debug)]
pub struct Machine {
    pub version: String,
    pub os: String,
    pub arch: String,
    pub data_dir: String,
    pub dir_ok: bool,
    pub sessions: usize,
}

pub const DIR_HINT: &'static str = "目录不可写，请检查权限或用 --data-dir 指定其它位置";

/// The findings in their order.
pub open spec fn findings(
    m: Machine,
    asr: AsrSettingsView,
    ai: AiSettingsView,
    sources: Seq<SourceInfoView>,
) -> Seq<LineView> {
    seq![
        noted("版本"@, "MeetingHear "@ + service_text(m.version@, m.os@, m.arch@)),
        checked("数据目录"@, m.data_dir@, m.dir_ok, DIR_HINT@),
        noted("历史会话"@, decimal(m.sessions as nat) + " 条"@),
        checked("语音识别服务"@, asr_value(asr), asr.ready(), ASR_HINT@),
        checked("断句方式"@, "自适应能量 VAD（无需模型文件）"@, true, ""@),
        mic_finding(sources),
        loopback_finding(sources),
        checked("AI 接口"@, ai_value(ai), ai.ready(), AI_HINT@),
    ]
}

/// Checks what needs no connection.
pub fn check_lines(
    m: &Machine,
    asr: &AsrSettings,
    ai: &AiSettings,
    sources: &Vec<AudioSourceInfo>,
) -> (r: Vec<Line>)
    ensures
        line_views(r@) == findings(*m, asr@, ai@, source_views(sources@)),
{
    let mut out: Vec<Line> = Vec::new();
    let mut version = "MeetingHear ".to_owned();
    version.append(
        describe_service(m.version.as_str(), m.os.as_str(), m.arch.as_str()).as_str(),
    );
    out.push(noted_line("版本", version));
    out.push(checked_line("数据目录", m.data_dir.clone(), m.dir_ok, DIR_HINT));
    let mut count = decimal_of(m.sessions as u128);
    count.append(" 条");
    out.push(noted_line("历史会话", count));
    out.push(asr_line(asr));
    out.push(
        checked_line("断句方式", "自适应能量 VAD（无需模型文件）".to_owned(), true, ""),
    );
    out.push(mic_line(sources));
    out.push(loopback_line(sources));
    out.push(ai_line(ai));
    proof {
        assert(line_views(out@) =~= findings(*m, asr@, ai@, source_views(sources@)));
    }
    out
}

// ---------------------------------------------------------------------------
// Connections
// ---------------------------------------------------------------------------

pub open spec fn failure_text(error: Option<Seq<char>>) -> Seq<char> {
    "失败："@ + match error {
        Some(e) => e,
        None => ""@,
    }
}

fn describe_failure(error: &Option<String>) -> (r: String)
    ensures
        r@ == failure_text(opt_view(*error)),
{
    let mut s = "失败：".to_owned();
    match error {
        Some(e) => s.append(e.as_str()),
        None => s.append(""),
    }
    s
}

pub open spec fn asr_answer(latency_ms: u64, sample: Seq<char>) -> Seq<char> {
    "正常（"@ + decimal(latency_ms as nat) + " ms，"@ + (if blank(sample) {
        "（静音测试，返回空文本属正常）"@
    } else {
        "返回："@ + sample
    }) + "）"@
}

/// The finding on the connection to the recognition service.
pub fn asr_connection_line(t: &AsrConnectionTest) -> (r: Line)
    ensures
        r@ == checked(
            "识别连通性"@,
            if t.ok {
                asr_answer(t.latency_ms, t.sample@)
            } else {
                failure_text(opt_view(t.error))
            },
            t.ok,
            "检查 Base URL、路径、API Key 与模型名；本地服务请确认已启动"@,
        ),
{
    let value = if t.ok {
        let sample = if is_blank(t.sample.as_str()) {
            "（静音测试，返回空文本属正常）".to_owned()
        } else {
            let mut s = "返回：".to_owned();
            s.append(t.sample.as_str());
            s
        };
        let mut v = "正常（".to_owned();
        v.append(decimal_of(t.latency_ms as u128).as_str());
        v.append(" ms，");
        v.append(sample.as_str());
        v.append("）");
        v
    } else {
        describe_failure(&t.error)
    };
    checked_line(
        "识别连通性",
        value,
        t.ok,
        "检查 Base URL、路径、API Key 与模型名；本地服务请确认已启动",
    )
}

/// The finding on the connection to the language model.
pub fn ai_connection_line(t: &ConnectionTest) -> (r: Line)
    ensures
        r@ == checked(
            "AI 连通性"@,
            if t.ok {
                "正常（"@ + decimal(t.latency_ms as nat) + " ms，返回："@ + t.sample@ + "）"@
            } else {
                failure_text(opt_view(t.error))
            },
            t.ok,
            "检查 Base URL、API Key、网络代理；本地模型请确认服务已启动"@,
        ),
{
    let value = if t.ok {
        let mut v = "正常（".to_owned();
        v.append(decimal_of(t.latency_ms as u128).as_str());
        v.append(" ms，返回：");
        v.append(t.sample.as_str());
        v.append("）");
        v
    } else {
        describe_failure(&t.error)
    };
    checked_line(
        "AI 连通性",
        value,
        t.ok,
        "检查 Base URL、API Key、网络代理；本地模型请确认服务已启动",
    )
}

/// The finding where no connection could be tried.
pub fn ai_untested_line(why: &str) -> (r: Line)
    ensures
        r@ == (LineView {
            label: "AI 连通性"@,
            value: why@,
            ok: Some(false),
            hint: None,
        }),
{
    Line {
        label: "AI 连通性".to_owned(),
        value: why.to_owned(),
        ok: Some(false),
        hint: None,
    }
}

// ---------------------------------------------------------------------------
// Report
// ---------------------------------------------------------------------------

/// Nothing is found wrong.
pub open spec fn all_well(lines: Seq<LineView>) -> bool {
    forall|i: int| 0 <= i < lines.len() ==> (#[trigger] lines[i]).ok != Some(false)
}

/// The exit code of the self-check.
pub fn exit_code(lines: &Vec<Line>) -> (r: i32)
    ensures
        r == if all_well(line_views(lines@)) {
            0i32
        } else {
            1i32
        },
{
    let n: usize = lines.len();
    let mut i: usize = 0;
    while i < n
        invariant
            i <= n == lines@.len(),
            forall|j: int| 0 <= j < i ==> (#[trigger] line_views(lines@)[j]).ok != Some(false),
        decreases n - i,
    {
        proof {
            assert(line_views(lines@)[i as int] == lines@[i as int]@);
        }
        if let Some(false) = lines[i].ok {
            return 1;
        }
        i += 1;
    }
    0
}

/// A text with blanks after it, up to `width` characters.
pub open spec fn padded(s: Seq<char>, width: int) -> Seq<char>
    decreases width - s.len(),
{
    if s.len() >= width {
        s
    } else {
        padded(s.push(' '), width)
    }
}

fn pad(s: &str, width: usize) -> (r: String)
    ensures
        r@ == padded(s@, width as int),
{
    let mut out = s.to_owned();
    let mut n: usize = s.unicode_len();
    while n < width
        invariant
            n == out@.len(),
            padded(s@, width as int) == padded(out@, width as int),
        decreases width - n,
    {
        out.push(' ');
        n += 1;
    }
    out
}

pub const RULER: &'static str = "────────────────────────────────────────────────────────────";

pub open spec fn mark(ok: Option<bool>) -> Seq<char> {
    match ok {
        Some(true) => "✓"@,
        Some(false) => "✗"@,
        None => "·"@,
    }
}

/// A finding as it is printed.
pub open spec fn line_text(l: LineView) -> Seq<char> {
    let first = mark(l.ok) + " "@ + padded(l.label, 20) + " "@ + l.value + "\n"@;
    match l.hint {
        Some(hint) => first + "  "@ + padded(""@, 20) + " └─ "@ + hint + "\n"@,
        None => first,
    }
}

pub open spec fn lines_text(lines: Seq<LineView>) -> Seq<char>
    decreases lines.len(),
{
    if lines.len() == 0 {
        Seq::empty()
    } else {
        lines_text(lines.drop_last()) + line_text(lines.last())
    }
}

pub open spec fn report_text(lines: Seq<LineView>) -> Seq<char> {
    "MeetingHear 自检\n"@ + RULER@ + "\n"@ + lines_text(lines) + RULER@ + "\n"@ + (if all_well(
        lines,
    ) {
        "关键项检查通过，可以开始录音。\n"@
    } else {
        "存在未通过的关键项，请按上面的提示处理后重试。\n"@
    })
}

fn print_line(l: &Line) -> (r: String)
    ensures
        r@ == line_text(l@),
{
    let mut s = match l.ok {
        Some(true) => "✓".to_owned(),
        Some(false) => "✗".to_owned(),
        None => "·".to_owned(),
    };
    s.append(" ");
    s.append(pad(l.label.as_str(), 20).as_str());
    s.append(" ");
    s.append(l.value.as_str());
    s.append("\n");
    if let Some(hint) = &l.hint {
        s.append("  ");
        s.append(pad("", 20).as_str());
        s.append(" └─ ");
        s.append(hint.as_str());
        s.append("\n");
    }
    s
}

/// The findings as they are printed.
pub fn render_report(lines: &Vec<Line>) -> (r: String)
    ensures
        r@ == report_text(line_views(lines@)),
{
    let ghost all = line_views(lines@);
    let n: usize = lines.len();
    let mut body = String::new();
    let mut i: usize = 0;
    while i < n
        invariant
            i <= n == lines@.len(),
            all == line_views(lines@),
            body@ == lines_text(all.take(i as int)),
        decreases n - i,
    {
        proof {
            assert(all.take(i + 1).drop_last() =~= all.take(i as int));
            assert(all[i as int] == lines@[i as int]@);
        }
        body.append(print_line(&lines[i]).as_str());
        i += 1;
    }
    proof {
        assert(all.take(n as int) =~= all);
    }
    let mut s = "MeetingHear 自检\n".to_owned();
    s.append(RULER);
    s.append("\n");
    s.append(body.as_str());
    s.append(RULER);
    s.append("\n");
    if exit_code(lines) == 0 {
        s.append("关键项检查通过，可以开始录音。\n");
    } else {
        s.append("存在未通过的关键项，请按上面的提示处理后重试。\n");
    }
    s
}

// ---------------------------------------------------------------------------
// Sizes
// ---------------------------------------------------------------------------

/// The unit in which an amount is below 1024, from `unit` on.
pub open spec fn unit_index(n: int, unit: nat) -> nat
    decreases 4 - unit,
{
    if unit >= 4 || n < 1024 * pow1024(unit) {
        unit
    } else {
        unit_index(n, unit + 1)
    }
}

pub open spec fn pow1024(unit: nat) -> int {
    if unit == 0 {
        1
    } else if unit == 1 {
        0x400
    } else if unit == 2 {
        0x10_0000
    } else if unit == 3 {
        0x4000_0000
    } else {
        0x100_0000_0000
    }
}

pub open spec fn unit_name(unit: nat) -> Seq<char> {
    if unit == 0 {
        "B"@
    } else if unit == 1 {
        "KB"@
    } else if unit == 2 {
        "MB"@
    } else if unit == 3 {
        "GB"@
    } else {
        "TB"@
    }
}

/// The spacing of 53-bit numbers at `n`: how far apart those are that a double
/// can hold.
pub open spec fn spacing(n: int, step: int) -> int
    decreases n - step,
{
    if step <= 0 || n < step * 0x20_0000_0000_0000 {
        step
    } else {
        spacing(n, 2 * step)
    }
}

/// The double that is nearest to a whole number.
pub open spec fn nearest_double(n: int) -> int {
    rounded(n, spacing(n, 1)) * spacing(n, 1)
}

/// An amount in bytes for people: whole from 100 of a unit on, else with one
/// decimal.
pub open spec fn bytes_text(bytes: u64) -> Seq<char> {
    if bytes == 0 {
        "0 B"@
    } else {
        let v = nearest_double(bytes as int);
        let unit = unit_index(v, 0);
        let d = pow1024(unit);
        (if v >= 100 * d {
            decimal(rounded(v, d) as nat)
        } else {
            let tenths = rounded(10 * v, d);
            decimal((tenths / 10) as nat) + "."@ + decimal((tenths % 10) as nat)
        }) + " "@ + unit_name(unit)
    }
}

fn round(n: u128, d: u128) -> (r: u128)
    requires
        0 < d <= 0x100_0000_0000,
        n <= 0x10_0000_0000_0000_0000,
    ensures
        r == rounded(n as int, d as int),
        r <= n + 1,
        r * d <= n + d,
{
    let q: u128 = n / d;
    let m: u128 = n % d;
    proof {
        vstd::arithmetic::div_mod::lemma_fundamental_div_mod(n as int, d as int);
        vstd::arithmetic::div_mod::lemma_div_is_ordered_by_denominator(n as int, 1, d as int);
        assert(q * d == d * q) by (nonlinear_arith);
        assert((q + 1) * d == d * q + d) by (nonlinear_arith);
    }
    if m * 2 > d || (m * 2 == d && q % 2 == 1) {
        q + 1
    } else {
        q
    }
}

/// Writes an amount in bytes for people.
pub fn format_bytes(bytes: u64) -> (r: String)
    ensures
        r@ == bytes_text(bytes),
{
    if bytes == 0 {
        return "0 B".to_owned();
    }
    let mut step: u128 = 1;
    while bytes as u128 >= step * 0x20_0000_0000_0000
        invariant
            1 <= step <= 0x1000,
            spacing(bytes as int, 1) == spacing(bytes as int, step as int),
        decreases bytes - step,
    {
        step = step * 2;
    }
    let v: u128 = round(bytes as u128, step) * step;
    let mut unit: usize = 0;
    let mut d: u128 = 1;
    while unit < 4 && v >= 1024 * d
        invariant
            unit <= 4,
            d == pow1024(unit as nat),
            d <= 0x100_0000_0000,
            unit_index(v as int, 0) == unit_index(v as int, unit as nat),
        decreases 4 - unit,
    {
        d = 1024 * d;
        unit += 1;
    }
    let mut s = if v >= 100 * d {
        decimal_of(round(v, d))
    } else {
        let tenths: u128 = round(10 * v, d);
        let mut t = decimal_of(tenths / 10);
        t.append(".");
        t.append(decimal_of(tenths % 10).as_str());
        t
    };
    s.append(" ");
    s.append(
        match unit {
            0 => "B",
            1 => "KB",
            2 => "MB",
            3 => "GB",
            _ => "TB",
        },
    );
    s
}

/// The check passes if and only if nothing was found wrong, and every finding is
/// printed with its mark, its name, its value and its hint, in order.
pub proof fn law_findings_are_all_printed(lines: Seq<LineView>, l: LineView)
    ensures
        all_well(lines.push(l)) == (all_well(lines) && l.ok != Some(false)),
        all_well(Seq::empty()),
        lines_text(lines.push(l)) == lines_text(lines) + line_text(l),
        l.hint is None && l.label.len() >= 20 ==> line_text(l) == mark(l.ok) + " "@ + l.label + " "@
            + l.value + "\n"@,
        mark(Some(true)) == "✓"@ && mark(Some(false)) == "✗"@ && mark(None) == "·"@,
{
    let all = lines.push(l);
    assert(all.drop_last() =~= lines);
    if all_well(all) {
        assert forall|i: int| 0 <= i < lines.len() implies (#[trigger] lines[i]).ok != Some(
            false,
        ) by {
            assert(all[i] == lines[i]);
        }
        assert(all[lines.len() as int] == l);
    }
    if all_well(lines) && l.ok != Some(false) {
        assert forall|i: int| 0 <= i < all.len() implies (#[trigger] all[i]).ok != Some(false) by {
            if i < lines.len() {
                assert(all[i] == lines[i]);
            }
        }
    }
}

/// The sources of a kind that can be used.
pub open spec fn usable(sources: Seq<SourceInfoView>, kind: SourceKind) -> Seq<SourceInfoView> {
    sources.filter(|s: SourceInfoView| s.available && s.kind == kind)
}

/// A device is found if one of its kind can be used, and then it is named; services are
/// found if they are ready.
pub proof fn law_findings_say_what_is_there(
    m: Machine,
    asr: AsrSettingsView,
    ai: AiSettingsView,
    sources: Seq<SourceInfoView>,
)
    ensures
        ({
            let f = findings(m, asr, ai, sources);
            let mics = usable(sources, SourceKind::Microphone);
            let loops = usable(sources, SourceKind::Loopback);
            &&& f.len() == 8
            &&& f[1].value == m.data_dir@ && f[1].ok == Some(m.dir_ok)
            &&& f[3].ok == Some(asr.ready())
            &&& f[5].ok == Some(mics.len() > 0)
            &&& f[6].ok == Some(loops.len() > 0)
            &&& f[7].ok == Some(ai.ready())
            &&& mics.len() > 0 ==> f[5].value == joined(
                mics.map_values(|s: SourceInfoView| s.label),
                "、"@,
            )
            &&& loops.len() > 0 ==> f[6].value == joined(
                loops.map_values(|s: SourceInfoView| s.label),
                "、"@,
            )
            &&& forall|i: int| 0 <= i < 8 ==> ((#[trigger] f[i]).ok == Some(true) ==> f[i].hint is None)
            &&& forall|i: int| 0 <= i < 8 ==> ((#[trigger] f[i]).ok == Some(false) ==> f[i].hint is Some)
        }),
{
    lemma_usable_labels(sources, SourceKind::Microphone);
    lemma_usable_labels(sources, SourceKind::Loopback);
}

proof fn lemma_usable_labels(sources: Seq<SourceInfoView>, kind: SourceKind)
    ensures
        usable_labels(sources, kind) == usable(sources, kind).map_values(
            |s: SourceInfoView| s.label,
        ),
    decreases sources.len(),
{
    reveal(Seq::filter);
    let p = |s: SourceInfoView| s.available && s.kind == kind;
    let f = |s: SourceInfoView| s.label;
    if sources.len() > 0 {
        let head = sources.drop_last();
        lemma_usable_labels(head, kind);
        if p(sources.last()) {
            assert(sources.filter(p) == head.filter(p).push(sources.last()));
            assert(sources.filter(p).map_values(f) =~= head.filter(p).map_values(f).push(
                sources.last().label,
            ));
        }
    } else {
        assert(sources.filter(p).map_values(f) =~= Seq::empty());
    }
}

} // verus!
