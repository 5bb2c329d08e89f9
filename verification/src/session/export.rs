//! Writing a session out for people to read.

use vstd::prelude::*;
use vstd::string::*;
use crate::ai::summarizer::ActionItem;
use crate::ai::summarizer::ItemView;
use crate::ai::summarizer::SummaryView;
use crate::ai::summarizer::item_views;
use crate::error::AppError;
use crate::error::AppResult;
use crate::error::ErrorView;
use crate::session::ConfigView;
use crate::session::SegmentView;
use crate::session::Session;
use crate::session::SessionConfig;
use crate::session::SessionView;
use crate::session::TranscriptSegment;
use crate::session::segment_views;
use crate::session::transcript_line;
use crate::text::ascii_digit;
use crate::text::ascii_lowered;
use crate::text::blank;
use crate::text::decimal;
use crate::text::decimal_of;
use crate::text::has_text;
use crate::text::is_blank;
use crate::text::join;
use crate::text::joined;
use crate::text::lemma_text_within;
use crate::text::lemma_text_within_part;
use crate::text::opt_view;
use crate::text::padded_decimal_of;
use crate::text::same;
use crate::text::signed_decimal;
use crate::text::signed_decimal_of;
use crate::text::to_ascii_lowered;
use crate::text::trim;
use crate::text::trimmed;
use crate::text::views;
use crate::text::zero_padded;
use crate::util::clock;
use crate::util::file_name;
use crate::util::fit_name;
use crate::util::format_clock;
use crate::util::law_file_names_are_fit;
use crate::util::sanitize_filename;
use crate::util::two_digits;
use crate::util::unfit_for_file_name;

verus! {

// ---------------------------------------------------------------------------
// Dates
// ---------------------------------------------------------------------------

/// Date and time for a file name.
pub const FILE_STAMP: &'static str = "%Y%m%d-%H%M";

/// Date and time in full.
pub const FULL_STAMP: &'static str = "%Y-%m-%d %H:%M:%S";

/// Date and time for a title.
pub const TITLE_STAMP: &'static str = "%m-%d %H:%M";

/// The date and time in UTC that [`chrono`] writes for a time in milliseconds
/// since 1970, by a pattern; nothing for a time out of its range.
pub uninterp spec fn utc_text(ms: i64, pattern: Seq<char>) -> Option<Seq<char>>;

/// [`chrono::DateTime::from_timestamp_millis`] and [`chrono::DateTime::format`].
/// The calendar is not stated, only that the text is determined by time and
/// pattern; of the pattern for file names also that year, month, day, hour and
/// minute are digits, but for the sign of a year of more than four.
#[verifier::external_body]
fn format_utc(ms: i64, pattern: &'static str) -> (r: Option<String>)
    requires
        pattern@ == FILE_STAMP@ || pattern@ == FULL_STAMP@ || pattern@ == TITLE_STAMP@,
    ensures
        opt_view(r) == utc_text(ms, pattern@),
        pattern@ == FILE_STAMP@ ==> (r matches Some(s) ==> forall|i: int|
            0 <= i < s@.len() ==> stamp_char(#[trigger] s@[i])),
{
    chrono::DateTime::from_timestamp_millis(ms).map(|d| d.format(pattern).to_string())
}

/// The characters of a date and time in a file name.
pub open spec fn stamp_char(c: char) -> bool {
    ascii_digit(c) || c == '-' || c == '+'
}

/// When a session began.
pub open spec fn created_text(ms: i64) -> Seq<char> {
    match utc_text(ms, FULL_STAMP@) {
        Some(s) => s,
        None => "-"@,
    }
}

fn format_created_at(ms: i64) -> (r: String)
    ensures
        r@ == created_text(ms),
{
    match format_utc(ms, FULL_STAMP) {
        Some(s) => s,
        None => "-".to_owned(),
    }
}

/// A title from a prefix and the time.
pub fn default_title(now: i64, prefix: &str) -> (r: String)
    ensures
        r@ == prefix@ + " "@ + match utc_text(now, TITLE_STAMP@) {
            Some(s) => s,
            None => "会议"@,
        },
{
    let mut t = prefix.to_owned();
    t.append(" ");
    match format_utc(now, TITLE_STAMP) {
        Some(s) => t.append(s.as_str()),
        None => t.append("会议"),
    }
    t
}

// ---------------------------------------------------------------------------
// Formats
// ---------------------------------------------------------------------------

#[derive(Clone, Copy, Debug, PartialEq, Eq, Structural)]
pub enum ExportFormat {
    Markdown,
    Text,
    Srt,
    Json,
}

/// The format that a text names.
pub open spec fn named_format(s: Seq<char>) -> Option<ExportFormat> {
    let t = ascii_lowered(trimmed(s));
    if t == "md"@ || t == "markdown"@ {
        Some(ExportFormat::Markdown)
    } else if t == "txt"@ || t == "text"@ {
        Some(ExportFormat::Text)
    } else if t == "srt"@ {
        Some(ExportFormat::Srt)
    } else if t == "json"@ {
        Some(ExportFormat::Json)
    } else {
        None
    }
}

/// The name of a file for a session, with the time it began.
pub open spec fn export_name(
    stamp: Option<Seq<char>>,
    title: Seq<char>,
    extension: Seq<char>,
) -> Seq<char> {
    let when = match stamp {
        Some(s) => s,
        None => "meeting"@,
    };
    when + "-"@ + file_name(title, "会议"@) + "."@ + extension
}

impl ExportFormat {
    pub fn parse(s: &str) -> (r: AppResult<ExportFormat>)
        ensures
            match r {
                Ok(f) => named_format(s@) == Some(f),
                Err(e) => named_format(s@) is None && e@ == ErrorView::Session(
                    "不支持的导出格式："@ + ascii_lowered(trimmed(s@))
                        + "（可选 md / txt / srt / json）"@,
                ),
            },
    {
        let lower = to_ascii_lowered(trim(s));
        let t = lower.as_str();
        if same(t, "md") || same(t, "markdown") {
            Ok(ExportFormat::Markdown)
        } else if same(t, "txt") || same(t, "text") {
            Ok(ExportFormat::Text)
        } else if same(t, "srt") {
            Ok(ExportFormat::Srt)
        } else if same(t, "json") {
            Ok(ExportFormat::Json)
        } else {
            let mut m = "不支持的导出格式：".to_owned();
            m.append(t);
            m.append("（可选 md / txt / srt / json）");
            Err(AppError::Session(m))
        }
    }

    pub open spec fn extension_text(self) -> Seq<char> {
        match self {
            ExportFormat::Markdown => "md"@,
            ExportFormat::Text => "txt"@,
            ExportFormat::Srt => "srt"@,
            ExportFormat::Json => "json"@,
        }
    }

    pub fn extension(&self) -> (r: &'static str)
        ensures
            r@ == self.extension_text(),
    {
        match self {
            ExportFormat::Markdown => "md",
            ExportFormat::Text => "txt",
            ExportFormat::Srt => "srt",
            ExportFormat::Json => "json",
        }
    }

    /// The name of the file to write, which holds no separator.
    pub fn default_file_name(&self, session: &Session) -> (r: String)
        ensures
            r@ == export_name(
                utc_text(session@.created_at, FILE_STAMP@),
                session@.title,
                self.extension_text(),
            ),
            forall|i: int| 0 <= i < r@.len() ==> !unfit_for_file_name(#[trigger] r@[i]),
    {
        let stamp = match format_utc(session.created_at, FILE_STAMP) {
            Some(s) => s,
            None => "meeting".to_owned(),
        };
        name_export(stamp.as_str(), session.title.as_str(), *self)
    }
}

/// The name of a file for a session from the time it began.
pub fn name_export(stamp: &str, title: &str, format: ExportFormat) -> (r: String)
    ensures
        r@ == export_name(Some(stamp@), title@, format.extension_text()),
        (forall|i: int| 0 <= i < stamp@.len() ==> stamp_char(#[trigger] stamp@[i])) || stamp@
            == "meeting"@ ==> forall|i: int|
            0 <= i < r@.len() ==> !unfit_for_file_name(#[trigger] r@[i]),
{
    let name = sanitize_filename(title, "会议");
    let ext = format.extension();
    let mut s = stamp.to_owned();
    s.append("-");
    s.append(name.as_str());
    s.append(".");
    s.append(ext);
    proof {
        if fit_name(title@).len() > 0 {
            law_file_names_are_fit(title@, "会议"@);
        } else {
            reveal_strlit("会议");
        }
        reveal_strlit("meeting");
        reveal_strlit("-");
        reveal_strlit(".");
        reveal_strlit("md");
        reveal_strlit("txt");
        reveal_strlit("srt");
        reveal_strlit("json");
        assert forall|i: int| 0 <= i < name@.len() implies !unfit_for_file_name(
            #[trigger] name@[i],
        ) by {}
        if (forall|i: int| 0 <= i < stamp@.len() ==> stamp_char(#[trigger] stamp@[i])) || stamp@
            == "meeting"@ {
            assert forall|i: int| 0 <= i < stamp@.len() implies !unfit_for_file_name(
                #[trigger] stamp@[i],
            ) by {
                if stamp@ != "meeting"@ {
                    assert(stamp_char(stamp@[i]));
                }
            }
            let a = stamp@.len() as int;
            let b = name@.len() as int;
            assert forall|i: int| 0 <= i < s@.len() implies !unfit_for_file_name(
                #[trigger] s@[i],
            ) by {
                if i < a {
                    assert(s@[i] == stamp@[i]);
                } else if i == a {
                    assert(s@[i] == '-');
                } else if i < a + 1 + b {
                    assert(s@[i] == name@[i - a - 1]);
                } else if i == a + 1 + b {
                    assert(s@[i] == '.');
                } else {
                    assert(s@[i] == ext@[i - a - b - 2]);
                }
            }
        }
    }
    s
}

// ---------------------------------------------------------------------------
// Markdown
// ---------------------------------------------------------------------------

/// Each text between `before` and `after`, one after the other.
pub open spec fn wrapped(items: Seq<Seq<char>>, before: Seq<char>, after: Seq<char>) -> Seq<char>
    decreases items.len(),
{
    if items.len() == 0 {
        Seq::empty()
    } else {
        wrapped(items.drop_last(), before, after) + before + items.last() + after
    }
}

fn wrap_all(items: &Vec<String>, before: &str, after: &str) -> (r: String)
    ensures
        r@ == wrapped(views(items@), before@, after@),
{
    let ghost all = views(items@);
    let n: usize = items.len();
    let mut out = String::new();
    let mut i: usize = 0;
    while i < n
        invariant
            i <= n == items@.len(),
            all == views(items@),
            out@ == wrapped(all.take(i as int), before@, after@),
        decreases n - i,
    {
        proof {
            assert(all.take(i + 1).drop_last() =~= all.take(i as int));
        }
        out.append(before);
        out.append(items[i].as_str());
        out.append(after);
        i += 1;
    }
    proof {
        assert(all.take(n as int) =~= all);
    }
    out
}

/// A source with the name of its device.
pub open spec fn source_text(name: Seq<char>, label: Option<Seq<char>>) -> Seq<char> {
    match label {
        Some(l) => name + "（"@ + l + "）"@,
        None => name,
    }
}

fn describe_source(name: &str, label: &Option<String>) -> (r: String)
    ensures
        r@ == source_text(name@, opt_view(*label)),
{
    let mut s = name.to_owned();
    if let Some(l) = label {
        s.append("（");
        s.append(l.as_str());
        s.append("）");
    }
    s
}

/// Where the audio of a session came from.
pub open spec fn sources(c: ConfigView) -> Seq<Seq<char>> {
    let mic = source_text("麦克风"@, c.mic_label);
    let loopback = source_text("系统声音"@, c.loopback_label);
    if c.enable_mic && c.enable_loopback {
        seq![mic, loopback]
    } else if c.enable_mic {
        seq![mic]
    } else if c.enable_loopback {
        seq![loopback]
    } else {
        seq!["音频文件"@]
    }
}

fn list_sources(c: &SessionConfig) -> (r: Vec<String>)
    ensures
        views(r@) == sources(c@),
{
    let mut out: Vec<String> = Vec::new();
    if c.enable_mic {
        out.push(describe_source("麦克风", &c.mic_label));
    }
    if c.enable_loopback {
        out.push(describe_source("系统声音", &c.loopback_label));
    }
    if out.len() == 0 {
        out.push("音频文件".to_owned());
    }
    proof {
        assert(views(out@) =~= sources(c@));
    }
    out
}

/// The table at the beginning.
pub open spec fn facts_table(s: SessionView) -> Seq<char> {
    "| 项目 | 内容 |\n| --- | --- |\n"@ + "| 开始时间 | "@ + created_text(s.created_at) + " |\n"@
        + "| 时长 | "@ + clock(s.duration as int) + " |\n"@ + "| 识别服务 | "@ + s.config.model_id
        + " |\n"@ + "| 音频来源 | "@ + joined(sources(s.config), " + "@) + " |\n"@ + "| 语音时长 | "@
        + clock(s.stats.speech_ms as int) + " |\n"@ + "| 字数 | "@ + signed_decimal(
        s.stats.chars as int,
    ) + " |\n"@ + "\n"@
}

fn render_facts(s: &Session) -> (r: String)
    ensures
        r@ == facts_table(s@),
{
    let mut out = "| 项目 | 内容 |\n| --- | --- |\n".to_owned();
    out.append("| 开始时间 | ");
    out.append(format_created_at(s.created_at).as_str());
    out.append(" |\n");
    out.append("| 时长 | ");
    out.append(format_clock(s.duration_ms).as_str());
    out.append(" |\n");
    out.append("| 识别服务 | ");
    out.append(s.config.model_id.as_str());
    out.append(" |\n");
    out.append("| 音频来源 | ");
    out.append(join(&list_sources(&s.config), " + ").as_str());
    out.append(" |\n");
    out.append("| 语音时长 | ");
    out.append(format_clock(s.stats.speech_ms).as_str());
    out.append(" |\n");
    out.append("| 字数 | ");
    out.append(signed_decimal_of(s.stats.chars).as_str());
    out.append(" |\n");
    out.append("\n");
    out
}

/// A chapter with a heading; nothing where its text is empty.
pub open spec fn chapter(heading: Seq<char>, text: Seq<char>) -> Seq<char> {
    if blank(text) {
        Seq::empty()
    } else {
        heading + trimmed(text) + "\n\n"@
    }
}

fn render_chapter(heading: &str, text: &str) -> (r: String)
    ensures
        r@ == chapter(heading@, text@),
{
    if is_blank(text) {
        return String::new();
    }
    let mut out = heading.to_owned();
    out.append(trim(text));
    out.append("\n\n");
    out
}

/// The report, where there is one.
pub open spec fn report_chapter(report: Option<Seq<char>>) -> Seq<char> {
    match report {
        Some(r) => "## 会议纪要\n\n"@ + trimmed(r) + "\n\n"@,
        None => Seq::empty(),
    }
}

fn render_report(report: &Option<String>) -> (r: String)
    ensures
        r@ == report_chapter(opt_view(*report)),
{
    match report {
        Some(t) => {
            let mut out = "## 会议纪要\n\n".to_owned();
            out.append(trim(t.as_str()));
            out.append("\n\n");
            out
        },
        None => String::new(),
    }
}

/// A chapter with a list; nothing where the list is empty.
pub open spec fn list_chapter(heading: Seq<char>, items: Seq<Seq<char>>) -> Seq<char> {
    if items.len() == 0 {
        Seq::empty()
    } else {
        heading + wrapped(items, "- "@, "\n"@) + "\n"@
    }
}

fn render_list(heading: &str, items: &Vec<String>) -> (r: String)
    ensures
        r@ == list_chapter(heading@, views(items@)),
{
    proof {
        assert(views(items@).len() == items@.len());
    }
    if items.len() == 0 {
        return String::new();
    }
    let mut out = heading.to_owned();
    out.append(wrap_all(items, "- ", "\n").as_str());
    out.append("\n");
    out
}

/// A cell that must not be empty.
pub open spec fn confirmed(s: Seq<char>) -> Seq<char> {
    if s.len() == 0 {
        "待确认"@
    } else {
        s
    }
}

fn confirm(s: &String) -> (r: String)
    ensures
        r@ == confirmed(s@),
{
    if s.as_str().unicode_len() == 0 {
        "待确认".to_owned()
    } else {
        s.clone()
    }
}

/// The rows of the table of things to be done.
pub open spec fn item_rows(items: Seq<ItemView>) -> Seq<char>
    decreases items.len(),
{
    if items.len() == 0 {
        Seq::empty()
    } else {
        let a = items.last();
        item_rows(items.drop_last()) + "| "@ + a.text + " | "@ + confirmed(a.owner) + " | "@
            + confirmed(a.due) + " |\n"@
    }
}

/// The things to be done.
pub open spec fn items_chapter(items: Seq<ItemView>) -> Seq<char> {
    if items.len() == 0 {
        Seq::empty()
    } else {
        "## 待办事项\n\n"@ + "| 事项 | 负责人 | 截止时间 |\n| --- | --- | --- |\n"@ + item_rows(items)
            + "\n"@
    }
}

fn render_items(items: &Vec<ActionItem>) -> (r: String)
    ensures
        r@ == items_chapter(item_views(items@)),
{
    let ghost all = item_views(items@);
    let n: usize = items.len();
    proof {
        assert(all.len() == items@.len());
    }
    if n == 0 {
        return String::new();
    }
    let mut rows = String::new();
    let mut i: usize = 0;
    while i < n
        invariant
            i <= n == items@.len(),
            all == item_views(items@),
            rows@ == item_rows(all.take(i as int)),
        decreases n - i,
    {
        proof {
            assert(all.take(i + 1).drop_last() =~= all.take(i as int));
            assert(all[i as int] == items@[i as int]@);
        }
        let a = &items[i];
        rows.append("| ");
        rows.append(a.text.as_str());
        rows.append(" | ");
        rows.append(confirm(&a.owner).as_str());
        rows.append(" | ");
        rows.append(confirm(&a.due).as_str());
        rows.append(" |\n");
        i += 1;
    }
    proof {
        assert(all.take(n as int) =~= all);
    }
    let mut out = "## 待办事项\n\n".to_owned();
    out.append("| 事项 | 负责人 | 截止时间 |\n| --- | --- | --- |\n");
    out.append(rows.as_str());
    out.append("\n");
    out
}

/// The topics in one line.
pub open spec fn topics_line(topics: Seq<Seq<char>>) -> Seq<char> {
    if topics.len() == 0 {
        Seq::empty()
    } else {
        "**讨论主题**："@ + joined(topics, " · "@) + "\n\n"@
    }
}

fn render_topics(topics: &Vec<String>) -> (r: String)
    ensures
        r@ == topics_line(views(topics@)),
{
    proof {
        assert(views(topics@).len() == topics@.len());
    }
    if topics.len() == 0 {
        return String::new();
    }
    let mut out = "**讨论主题**：".to_owned();
    out.append(join(topics, " · ").as_str());
    out.append("\n\n");
    out
}

/// Segments as paragraphs.
pub open spec fn paragraphs(segments: Seq<SegmentView>) -> Seq<char>
    decreases segments.len(),
{
    if segments.len() == 0 {
        Seq::empty()
    } else {
        let s = segments.last();
        paragraphs(segments.drop_last()) + "**["@ + clock(s.start as int) + "]** "@ + s.text
            + "\n\n"@
    }
}

/// All that was said.
pub open spec fn transcript_chapter(segments: Seq<SegmentView>) -> Seq<char> {
    "## 完整转写\n\n"@ + if segments.len() == 0 {
        "_（没有识别到内容）_\n"@
    } else {
        paragraphs(segments)
    }
}

fn render_transcript(segments: &Vec<TranscriptSegment>) -> (r: String)
    ensures
        r@ == transcript_chapter(segment_views(segments@)),
{
    let ghost all = segment_views(segments@);
    let n: usize = segments.len();
    let mut body = String::new();
    let mut i: usize = 0;
    while i < n
        invariant
            i <= n == segments@.len(),
            all == segment_views(segments@),
            body@ == paragraphs(all.take(i as int)),
        decreases n - i,
    {
        proof {
            assert(all.take(i + 1).drop_last() =~= all.take(i as int));
            assert(all[i as int] == segments@[i as int]@);
        }
        body.append("**[");
        body.append(format_clock(segments[i].start_ms).as_str());
        body.append("]** ");
        body.append(segments[i].text.as_str());
        body.append("\n\n");
        i += 1;
    }
    proof {
        assert(all.take(n as int) =~= all);
    }
    let mut out = "## 完整转写\n\n".to_owned();
    if n == 0 {
        out.append("_（没有识别到内容）_\n");
    } else {
        out.append(body.as_str());
    }
    out
}

/// A session as a document: facts, report, minutes, and all that was said,
/// doubtful segments included.
pub open spec fn markdown(s: SessionView) -> Seq<char> {
    "# "@ + s.title + "\n\n"@ + facts_table(s) + report_chapter(s.report_md) + chapter(
        "## 总览\n\n"@,
        s.summary.overview,
    ) + chapter("## 纪要要点\n\n"@, s.summary.summary) + list_chapter(
        "## 关键结论\n\n"@,
        s.summary.key_points,
    ) + list_chapter("## 已达成的决定\n\n"@, s.summary.decisions) + items_chapter(
        s.summary.action_items,
    ) + topics_line(s.summary.topics) + transcript_chapter(s.segments)
}

pub fn render_markdown(s: &Session) -> (r: String)
    ensures
        r@ == markdown(s@),
{
    let mut out = "# ".to_owned();
    out.append(s.title.as_str());
    out.append("\n\n");
    out.append(render_facts(s).as_str());
    out.append(render_report(&s.report_md).as_str());
    out.append(render_chapter("## 总览\n\n", s.summary.overview.as_str()).as_str());
    out.append(render_chapter("## 纪要要点\n\n", s.summary.summary.as_str()).as_str());
    out.append(render_list("## 关键结论\n\n", &s.summary.key_points).as_str());
    out.append(render_list("## 已达成的决定\n\n", &s.summary.decisions).as_str());
    out.append(render_items(&s.summary.action_items).as_str());
    out.append(render_topics(&s.summary.topics).as_str());
    out.append(render_transcript(&s.segments).as_str());
    out
}

// ---------------------------------------------------------------------------
// Plain text and subtitles
// ---------------------------------------------------------------------------

/// The lines of all segments.
pub open spec fn all_lines(segments: Seq<SegmentView>) -> Seq<char>
    decreases segments.len(),
{
    if segments.len() == 0 {
        Seq::empty()
    } else {
        all_lines(segments.drop_last()) + transcript_line(segments.last())
    }
}

/// A session as plain text.
pub open spec fn plain_text(s: SessionView) -> Seq<char> {
    s.title + "\n"@ + created_text(s.created_at) + " · 时长 "@ + clock(s.duration as int) + "\n\n"@
        + all_lines(s.segments)
}

pub fn render_text(s: &Session) -> (r: String)
    ensures
        r@ == plain_text(s@),
{
    let ghost all = s@.segments;
    let n: usize = s.segments.len();
    let mut body = String::new();
    let mut i: usize = 0;
    while i < n
        invariant
            i <= n == s.segments@.len(),
            all == segment_views(s.segments@),
            body@ == all_lines(all.take(i as int)),
        decreases n - i,
    {
        proof {
            assert(all.take(i + 1).drop_last() =~= all.take(i as int));
            assert(all[i as int] == s.segments@[i as int]@);
        }
        let ghost so_far = body@;
        body.append("[");
        body.append(format_clock(s.segments[i].start_ms).as_str());
        body.append("] ");
        body.append(s.segments[i].text.as_str());
        body.append("\n");
        proof {
            assert(body@ =~= so_far + transcript_line(all[i as int]));
        }
        i += 1;
    }
    proof {
        assert(all.take(n as int) =~= all);
    }
    let mut out = s.title.clone();
    out.append("\n");
    out.append(format_created_at(s.created_at).as_str());
    out.append(" · 时长 ");
    out.append(format_clock(s.duration_ms).as_str());
    out.append("\n\n");
    out.append(body.as_str());
    out
}

/// A time in subtitles: `HH:MM:SS,mmm`.
pub open spec fn srt_time(ms: int) -> Seq<char> {
    let t = if ms < 0 {
        0
    } else {
        ms
    };
    two_digits((t / 3_600_000) as nat) + ":"@ + two_digits((t % 3_600_000 / 60_000) as nat) + ":"@
        + two_digits((t % 60_000 / 1000) as nat) + ","@ + zero_padded(
        decimal((t % 1000) as nat),
        3,
    )
}

pub fn srt_timestamp(ms: i64) -> (r: String)
    ensures
        r@ == srt_time(ms as int),
{
    let t: i64 = if ms < 0 {
        0
    } else {
        ms
    };
    let mut s = padded_decimal_of((t / 3_600_000) as u128, 2);
    s.append(":");
    s.append(padded_decimal_of((t % 3_600_000 / 60_000) as u128, 2).as_str());
    s.append(":");
    s.append(padded_decimal_of((t % 60_000 / 1000) as u128, 2).as_str());
    s.append(",");
    s.append(padded_decimal_of((t % 1000) as u128, 3).as_str());
    s
}

/// When a subtitle goes away: not before a fifth of a second has passed.
pub open spec fn subtitle_end(s: SegmentView) -> int {
    if s.end >= s.start + 200 {
        s.end as int
    } else {
        s.start + 200
    }
}

/// One subtitle.
pub open spec fn subtitle(s: SegmentView, number: nat) -> Seq<char> {
    decimal(number) + "\n"@ + srt_time(s.start as int) + " --> "@ + srt_time(subtitle_end(s))
        + "\n"@ + s.text + "\n\n"@
}

/// Segments as subtitles, numbered from one.
pub open spec fn subtitles(segments: Seq<SegmentView>) -> Seq<char>
    decreases segments.len(),
{
    if segments.len() == 0 {
        Seq::empty()
    } else {
        subtitles(segments.drop_last()) + subtitle(segments.last(), segments.len())
    }
}

pub fn render_srt(s: &Session) -> (r: String)
    requires
        forall|i: int|
            0 <= i < s@.segments.len() ==> (#[trigger] s@.segments[i]).start + 200 <= i64::MAX,
    ensures
        r@ == subtitles(s@.segments),
{
    let ghost all = s@.segments;
    let n: usize = s.segments.len();
    let mut out = String::new();
    let mut i: usize = 0;
    while i < n
        invariant
            i <= n == s.segments@.len(),
            all == segment_views(s.segments@),
            forall|k: int| 0 <= k < all.len() ==> (#[trigger] all[k]).start + 200 <= i64::MAX,
            out@ == subtitles(all.take(i as int)),
        decreases n - i,
    {
        proof {
            assert(all.take(i + 1).drop_last() =~= all.take(i as int));
            assert(all[i as int] == s.segments@[i as int]@);
            assert(all[i as int].start + 200 <= i64::MAX);
        }
        let seg = &s.segments[i];
        let end: i64 = if seg.end_ms >= seg.start_ms + 200 {
            seg.end_ms
        } else {
            seg.start_ms + 200
        };
        let ghost so_far = out@;
        out.append(decimal_of(i as u128 + 1).as_str());
        out.append("\n");
        out.append(srt_timestamp(seg.start_ms).as_str());
        out.append(" --> ");
        out.append(srt_timestamp(end).as_str());
        out.append("\n");
        out.append(seg.text.as_str());
        out.append("\n\n");
        proof {
            assert(out@ =~= so_far + subtitle(all[i as int], (i + 1) as nat));
        }
        i += 1;
    }
    proof {
        assert(all.take(n as int) =~= all);
    }
    out
}

/// A session in a format for people; nothing for JSON, which holds the session
/// as it is stored.
pub fn render_export(session: &Session, format: ExportFormat) -> (r: Option<String>)
    requires
        forall|i: int|
            0 <= i < session@.segments.len() ==> (#[trigger] session@.segments[i]).start + 200
                <= i64::MAX,
    ensures
        opt_view(r) == match format {
            ExportFormat::Markdown => Some(markdown(session@)),
            ExportFormat::Text => Some(plain_text(session@)),
            ExportFormat::Srt => Some(subtitles(session@.segments)),
            ExportFormat::Json => None,
        },
{
    match format {
        ExportFormat::Markdown => Some(render_markdown(session)),
        ExportFormat::Text => Some(render_text(session)),
        ExportFormat::Srt => Some(render_srt(session)),
        ExportFormat::Json => None,
    }
}

// ---------------------------------------------------------------------------
// What always holds of documents
// ---------------------------------------------------------------------------

/// Texts as lines of a list.
pub open spec fn bulleted(items: Seq<Seq<char>>) -> Seq<char> {
    items.map_values(|t: Seq<char>| "- "@ + t + "\n"@).flatten_alt()
}

/// A heading with a list below it, and nothing where there is no item.
pub open spec fn headed_list(heading: Seq<char>, items: Seq<Seq<char>>) -> Seq<char> {
    if items.len() == 0 {
        Seq::empty()
    } else {
        heading + bulleted(items) + "\n"@
    }
}

pub open spec fn with_decisions(s: SessionView, d: Seq<Seq<char>>) -> SessionView {
    SessionView { summary: SummaryView { decisions: d, ..s.summary }, ..s }
}

pub open spec fn with_key_points(s: SessionView, d: Seq<Seq<char>>) -> SessionView {
    SessionView { summary: SummaryView { key_points: d, ..s.summary }, ..s }
}

pub open spec fn with_topics(s: SessionView, d: Seq<Seq<char>>) -> SessionView {
    SessionView { summary: SummaryView { topics: d, ..s.summary }, ..s }
}

pub open spec fn with_action_items(s: SessionView, d: Seq<ItemView>) -> SessionView {
    SessionView { summary: SummaryView { action_items: d, ..s.summary }, ..s }
}

pub open spec fn with_overview(s: SessionView, t: Seq<char>) -> SessionView {
    SessionView { summary: SummaryView { overview: t, ..s.summary }, ..s }
}

pub open spec fn with_minutes(s: SessionView, t: Seq<char>) -> SessionView {
    SessionView { summary: SummaryView { summary: t, ..s.summary }, ..s }
}

/// The document is `head` and `tail` with the decisions between them.
pub open spec fn around_decisions(s: SessionView, head: Seq<char>, tail: Seq<char>) -> bool {
    forall|d: Seq<Seq<char>>|
        markdown(#[trigger] with_decisions(s, d)) == head + headed_list("## 已达成的决定\n\n"@, d)
            + tail
}

pub open spec fn around_key_points(s: SessionView, head: Seq<char>, tail: Seq<char>) -> bool {
    forall|d: Seq<Seq<char>>|
        markdown(#[trigger] with_key_points(s, d)) == head + headed_list("## 关键结论\n\n"@, d)
            + tail
}

/// A row of the table of things to be done.
pub open spec fn item_row(a: ItemView) -> Seq<char> {
    "| "@ + a.text + " | "@ + if a.owner.len() == 0 {
        "待确认"@
    } else {
        a.owner
    } + " | "@ + if a.due.len() == 0 {
        "待确认"@
    } else {
        a.due
    } + " |\n"@
}

pub open spec fn around_action_items(s: SessionView, head: Seq<char>, tail: Seq<char>) -> bool {
    forall|d: Seq<ItemView>|
        markdown(#[trigger] with_action_items(s, d)) == head + headed_table(d) + tail
}

pub open spec fn around_topics(s: SessionView, head: Seq<char>, tail: Seq<char>) -> bool {
    forall|d: Seq<Seq<char>>|
        markdown(#[trigger] with_topics(s, d)) == head + if d.len() == 0 {
            Seq::empty()
        } else {
            "**讨论主题**："@ + joined(d, " · "@) + "\n\n"@
        } + tail
}

/// A heading with a text below it, and nothing where there is no text.
pub open spec fn headed_text(heading: Seq<char>, t: Seq<char>) -> Seq<char> {
    if blank(t) {
        Seq::empty()
    } else {
        heading + trimmed(t) + "\n\n"@
    }
}

pub open spec fn around_overview(s: SessionView, head: Seq<char>, tail: Seq<char>) -> bool {
    forall|t: Seq<char>|
        markdown(#[trigger] with_overview(s, t)) == head + headed_text("## 总览\n\n"@, t) + tail
}

pub open spec fn around_minutes(s: SessionView, head: Seq<char>, tail: Seq<char>) -> bool {
    forall|t: Seq<char>|
        markdown(#[trigger] with_minutes(s, t)) == head + headed_text("## 纪要要点\n\n"@, t) + tail
}

pub open spec fn around_report(s: SessionView, head: Seq<char>, tail: Seq<char>) -> bool {
    forall|r: Option<Seq<char>>|
        markdown(#[trigger] with_report(s, r)) == head + match r {
            Some(t) => "## 会议纪要\n\n"@ + trimmed(t) + "\n\n"@,
            None => Seq::empty(),
        } + tail
}

pub open spec fn with_report(s: SessionView, r: Option<Seq<char>>) -> SessionView {
    SessionView { report_md: r, ..s }
}

pub open spec fn with_segments(s: SessionView, v: Seq<SegmentView>) -> SessionView {
    SessionView { segments: v, ..s }
}

/// The document is `head` and then all that was said.
pub open spec fn before_transcript(s: SessionView, head: Seq<char>) -> bool {
    forall|v: Seq<SegmentView>|
        v.len() > 0 ==> markdown(#[trigger] with_segments(s, v)) == head + "## 完整转写\n\n"@
            + v.map_values(
            |x: SegmentView| "**["@ + clock(x.start as int) + "]** "@ + x.text + "\n\n"@,
        ).flatten_alt()
}

proof fn lemma_wrapped(items: Seq<Seq<char>>)
    ensures
        wrapped(items, "- "@, "\n"@) == bulleted(items),
    decreases items.len(),
{
    let f = |t: Seq<char>| "- "@ + t + "\n"@;
    let m = items.map_values(f);
    if items.len() > 0 {
        lemma_wrapped(items.drop_last());
        assert(m.drop_last() =~= items.drop_last().map_values(f));
        assert(m.last() == "- "@ + items.last() + "\n"@);
        assert(wrapped(items, "- "@, "\n"@) =~= wrapped(items.drop_last(), "- "@, "\n"@) + (
        "- "@ + items.last() + "\n"@));
    }
}

proof fn lemma_item_rows(items: Seq<ItemView>)
    ensures
        item_rows(items) == items.map_values(|a: ItemView| item_row(a)).flatten_alt(),
    decreases items.len(),
{
    let f = |a: ItemView| item_row(a);
    let m = items.map_values(f);
    if items.len() > 0 {
        lemma_item_rows(items.drop_last());
        assert(m.drop_last() =~= items.drop_last().map_values(f));
        assert(m.last() == item_row(items.last()));
        assert(item_rows(items) =~= item_rows(items.drop_last()) + item_row(items.last()));
    }
}

proof fn lemma_paragraphs(v: Seq<SegmentView>)
    ensures
        paragraphs(v) == v.map_values(
            |x: SegmentView| "**["@ + clock(x.start as int) + "]** "@ + x.text + "\n\n"@,
        ).flatten_alt(),
    decreases v.len(),
{
    let f = |x: SegmentView| "**["@ + clock(x.start as int) + "]** "@ + x.text + "\n\n"@;
    let m = v.map_values(f);
    if v.len() > 0 {
        lemma_paragraphs(v.drop_last());
        assert(m.drop_last() =~= v.drop_last().map_values(f));
        assert(m.last() == f(v.last()));
        assert(paragraphs(v) =~= paragraphs(v.drop_last()) + f(v.last()));
    }
}

/// What stands before the report.
spec fn opening(s: SessionView) -> Seq<char> {
    "# "@ + s.title + "\n\n"@ + facts_table(s)
}

proof fn lemma_assoc(x: Seq<char>, y: Seq<char>, z: Seq<char>)
    ensures
        x + y + z == x + (y + z),
{
    assert(x + y + z =~= x + (y + z));
}

proof fn lemma_assoc3(x: Seq<char>, a: Seq<char>, b: Seq<char>, c: Seq<char>)
    ensures
        x + a + b + c == x + (a + b + c),
{
    lemma_assoc(x, a, b);
    lemma_assoc(x, a + b, c);
}

proof fn lemma_assoc4(x: Seq<char>, a: Seq<char>, b: Seq<char>, c: Seq<char>, d: Seq<char>)
    ensures
        x + a + b + c + d == x + (a + b + c + d),
{
    lemma_assoc3(x, a, b, c);
    lemma_assoc(x, a + b + c, d);
}

/// The chapters that follow the list of the minutes.
spec fn closing_chapters(s: SessionView) -> Seq<char> {
    let y = s.summary;
    list_chapter("## 关键结论\n\n"@, s.summary.key_points) + list_chapter(
        "## 已达成的决定\n\n"@,
        y.decisions,
    ) + items_chapter(s.summary.action_items) + topics_line(s.summary.topics) + transcript_chapter(
        s.segments,
    )
}

proof fn lemma_closing_chapters(s: SessionView)
    ensures
        markdown(s) == opening(s) + report_chapter(s.report_md) + chapter(
            "## 总览\n\n"@,
            s.summary.overview,
        ) + chapter("## 纪要要点\n\n"@, s.summary.summary) + closing_chapters(s),
{
    let y = s.summary;
    let x = opening(s) + report_chapter(s.report_md) + chapter(
        "## 总览\n\n"@,
        s.summary.overview,
    ) + chapter("## 纪要要点\n\n"@, s.summary.summary);
    let k = list_chapter("## 关键结论\n\n"@, s.summary.key_points);
    let d = list_chapter("## 已达成的决定\n\n"@, y.decisions);
    let i = items_chapter(s.summary.action_items);
    let t = topics_line(s.summary.topics);
    let z = transcript_chapter(s.segments);
    assert(markdown(s) == x + k + d + i + t + z);
    lemma_assoc4(x, k, d, i, t);
    lemma_assoc(x, k + d + i + t, z);
}

proof fn lemma_place_of_decisions(s: SessionView)
    ensures
        exists|head: Seq<char>, tail: Seq<char>| #[trigger] around_decisions(s, head, tail),
{
    let y = s.summary;
    let head = opening(s) + report_chapter(s.report_md) + chapter("## 总览\n\n"@, y.overview)
        + chapter("## 纪要要点\n\n"@, y.summary) + list_chapter(
        "## 关键结论\n\n"@,
        y.key_points,
    );
    let i = items_chapter(y.action_items);
    let t = topics_line(y.topics);
    let z = transcript_chapter(s.segments);
    assert forall|x: Seq<Seq<char>>| markdown(#[trigger] with_decisions(s, x)) == head
        + headed_list("## 已达成的决定\n\n"@, x) + (i + t + z) by {
        lemma_wrapped(x);
        let c = headed_list("## 已达成的决定\n\n"@, x);
        assert(c == list_chapter("## 已达成的决定\n\n"@, x));
        assert(opening(with_decisions(s, x)) == opening(s));
        assert(markdown(with_decisions(s, x)) == head + c + i + t + z);
        lemma_assoc3(head + c, i, t, z);
    }
    assert(around_decisions(s, head, i + t + z));
}

proof fn lemma_place_of_key_points(s: SessionView)
    ensures
        exists|head: Seq<char>, tail: Seq<char>| #[trigger] around_key_points(s, head, tail),
{
    let y = s.summary;
    let head = opening(s) + report_chapter(s.report_md) + chapter("## 总览\n\n"@, y.overview)
        + chapter("## 纪要要点\n\n"@, y.summary);
    let d = list_chapter("## 已达成的决定\n\n"@, y.decisions);
    let i = items_chapter(y.action_items);
    let t = topics_line(y.topics);
    let z = transcript_chapter(s.segments);
    assert forall|x: Seq<Seq<char>>| markdown(#[trigger] with_key_points(s, x)) == head
        + headed_list("## 关键结论\n\n"@, x) + (d + i + t + z) by {
        lemma_wrapped(x);
        let c = headed_list("## 关键结论\n\n"@, x);
        assert(c == list_chapter("## 关键结论\n\n"@, x));
        assert(opening(with_key_points(s, x)) == opening(s));
        assert(markdown(with_key_points(s, x)) == head + c + d + i + t + z);
        lemma_assoc4(head + c, d, i, t, z);
    }
    assert(around_key_points(s, head, d + i + t + z));
}

/// The table of things to be done, with its heading.
pub open spec fn headed_table(items: Seq<ItemView>) -> Seq<char> {
    if items.len() == 0 {
        Seq::empty()
    } else {
        "## 待办事项\n\n"@ + "| 事项 | 负责人 | 截止时间 |\n| --- | --- | --- |\n"@ + items.map_values(
            |a: ItemView| item_row(a),
        ).flatten_alt() + "\n"@
    }
}

proof fn lemma_place_of_action_items(s: SessionView)
    ensures
        exists|head: Seq<char>, tail: Seq<char>| #[trigger] around_action_items(s, head, tail),
{
    let y = s.summary;
    let head = opening(s) + report_chapter(s.report_md) + chapter("## 总览\n\n"@, y.overview)
        + chapter("## 纪要要点\n\n"@, y.summary) + list_chapter(
        "## 关键结论\n\n"@,
        y.key_points,
    ) + list_chapter("## 已达成的决定\n\n"@, y.decisions);
    let t = topics_line(y.topics);
    let z = transcript_chapter(s.segments);
    assert forall|x: Seq<ItemView>| markdown(#[trigger] with_action_items(s, x)) == head
        + headed_table(x) + (t + z) by {
        lemma_item_rows(x);
        let c = headed_table(x);
        assert(c == items_chapter(x));
        assert(opening(with_action_items(s, x)) == opening(s));
        assert(markdown(with_action_items(s, x)) == head + c + t + z);
        lemma_assoc(head + c, t, z);
    }
    assert(around_action_items(s, head, t + z));
}

proof fn lemma_place_of_topics(s: SessionView)
    ensures
        exists|head: Seq<char>, tail: Seq<char>| #[trigger] around_topics(s, head, tail),
        exists|head: Seq<char>| #[trigger] before_transcript(s, head),
{
    let y = s.summary;
    let head = opening(s) + report_chapter(s.report_md) + chapter("## 总览\n\n"@, y.overview)
        + chapter("## 纪要要点\n\n"@, y.summary) + list_chapter(
        "## 关键结论\n\n"@,
        y.key_points,
    ) + list_chapter("## 已达成的决定\n\n"@, y.decisions) + items_chapter(y.action_items);
    let z = transcript_chapter(s.segments);
    assert forall|x: Seq<Seq<char>>| markdown(#[trigger] with_topics(s, x)) == head + topics_line(x)
        + z by {
        assert(opening(with_topics(s, x)) == opening(s));
    }
    assert(around_topics(s, head, z));
    let up_to = head + topics_line(y.topics);
    let f = |x: SegmentView| "**["@ + clock(x.start as int) + "]** "@ + x.text + "\n\n"@;
    assert forall|v: Seq<SegmentView>|
        v.len() > 0 implies markdown(#[trigger] with_segments(s, v)) == up_to + "## 完整转写\n\n"@
        + v.map_values(f).flatten_alt() by {
        lemma_paragraphs(v);
        assert(opening(with_segments(s, v)) == opening(s));
        assert(markdown(with_segments(s, v)) == up_to + ("## 完整转写\n\n"@ + paragraphs(v)));
        lemma_assoc(up_to, "## 完整转写\n\n"@, paragraphs(v));
    }
    assert(before_transcript(s, up_to));
}

proof fn lemma_place_of_overview(s: SessionView)
    ensures
        exists|head: Seq<char>, tail: Seq<char>| #[trigger] around_overview(s, head, tail),
{
    let y = s.summary;
    let head = opening(s) + report_chapter(s.report_md);
    let m = chapter("## 纪要要点\n\n"@, y.summary);
    let rest = closing_chapters(s);
    assert forall|x: Seq<char>| markdown(#[trigger] with_overview(s, x)) == head + headed_text(
        "## 总览\n\n"@,
        x,
    ) + (m + rest) by {
        lemma_closing_chapters(with_overview(s, x));
        assert(opening(with_overview(s, x)) == opening(s));
        assert(closing_chapters(with_overview(s, x)) == rest);
        lemma_assoc(head + headed_text("## 总览\n\n"@, x), m, rest);
    }
    assert(around_overview(s, head, m + rest));
}

proof fn lemma_place_of_minutes(s: SessionView)
    ensures
        exists|head: Seq<char>, tail: Seq<char>| #[trigger] around_minutes(s, head, tail),
{
    let y = s.summary;
    let head = opening(s) + report_chapter(s.report_md) + chapter("## 总览\n\n"@, y.overview);
    let rest = closing_chapters(s);
    assert forall|x: Seq<char>| markdown(#[trigger] with_minutes(s, x)) == head + headed_text(
        "## 纪要要点\n\n"@,
        x,
    ) + rest by {
        lemma_closing_chapters(with_minutes(s, x));
        assert(opening(with_minutes(s, x)) == opening(s));
        assert(closing_chapters(with_minutes(s, x)) == rest);
    }
    assert(around_minutes(s, head, rest));
}

proof fn lemma_place_of_report(s: SessionView)
    ensures
        exists|head: Seq<char>, tail: Seq<char>| #[trigger] around_report(s, head, tail),
{
    let y = s.summary;
    let o = chapter("## 总览\n\n"@, y.overview);
    let m = chapter("## 纪要要点\n\n"@, y.summary);
    let rest = closing_chapters(s);
    assert forall|x: Option<Seq<char>>| markdown(#[trigger] with_report(s, x)) == opening(s)
        + match x {
        Some(t) => "## 会议纪要\n\n"@ + trimmed(t) + "\n\n"@,
        None => Seq::empty(),
    } + (o + m + rest) by {
        lemma_closing_chapters(with_report(s, x));
        assert(opening(with_report(s, x)) == opening(s));
        assert(closing_chapters(with_report(s, x)) == rest);
        lemma_assoc3(opening(s) + report_chapter(x), o, m, rest);
    }
    assert(around_report(s, opening(s), o + m + rest));
}

/// Each part of the minutes has its own place in the document, and nothing else of
/// the document depends on it: the decisions stand as lines below their heading, and
/// so do the key points; the things to be done are rows of a table; the overview, the
/// list of the minutes, the report and the topics stand where they belong; and all
/// that was said comes last.
pub proof fn law_each_part_of_the_minutes_has_its_place(s: SessionView)
    ensures
        exists|head: Seq<char>, tail: Seq<char>| #[trigger] around_decisions(s, head, tail),
        exists|head: Seq<char>, tail: Seq<char>| #[trigger] around_key_points(s, head, tail),
        exists|head: Seq<char>, tail: Seq<char>| #[trigger] around_action_items(s, head, tail),
        exists|head: Seq<char>, tail: Seq<char>| #[trigger] around_topics(s, head, tail),
        exists|head: Seq<char>, tail: Seq<char>| #[trigger] around_overview(s, head, tail),
        exists|head: Seq<char>, tail: Seq<char>| #[trigger] around_minutes(s, head, tail),
        exists|head: Seq<char>, tail: Seq<char>| #[trigger] around_report(s, head, tail),
        exists|head: Seq<char>| #[trigger] before_transcript(s, head),
{
    lemma_place_of_decisions(s);
    lemma_place_of_key_points(s);
    lemma_place_of_action_items(s);
    lemma_place_of_topics(s);
    lemma_place_of_overview(s);
    lemma_place_of_minutes(s);
    lemma_place_of_report(s);
}

/// Every decision, key point and word said stands in the document.
pub proof fn law_document_holds_every_decision(s: SessionView, i: int)
    requires
        0 <= i,
    ensures
        i < s.summary.decisions.len() ==> has_text(
            markdown(s),
            "- "@ + s.summary.decisions[i] + "\n"@,
        ),
        i < s.summary.key_points.len() ==> has_text(
            markdown(s),
            "- "@ + s.summary.key_points[i] + "\n"@,
        ),
        i < s.summary.action_items.len() ==> has_text(
            markdown(s),
            item_row(s.summary.action_items[i]),
        ),
        i < s.segments.len() ==> has_text(
            markdown(s),
            "**["@ + clock(s.segments[i].start as int) + "]** "@ + s.segments[i].text + "\n\n"@,
        ),
{
    if i < s.summary.decisions.len() {
        let d = s.summary.decisions;
        lemma_place_of_decisions(s);
        let (head, tail) = choose|head: Seq<char>, tail: Seq<char>|
            #[trigger] around_decisions(s, head, tail);
        assert(with_decisions(s, d) == s);
        lemma_list_holds("## 已达成的决定\n\n"@, d, head, tail, i);
    }
    if i < s.summary.key_points.len() {
        let d = s.summary.key_points;
        lemma_place_of_key_points(s);
        let (head, tail) = choose|head: Seq<char>, tail: Seq<char>|
            #[trigger] around_key_points(s, head, tail);
        assert(with_key_points(s, d) == s);
        lemma_list_holds("## 关键结论\n\n"@, d, head, tail, i);
    }
    if i < s.summary.action_items.len() {
        let d = s.summary.action_items;
        lemma_place_of_action_items(s);
        let (head, tail) = choose|head: Seq<char>, tail: Seq<char>|
            #[trigger] around_action_items(s, head, tail);
        assert(with_action_items(s, d) == s);
        let rows = d.map_values(|a: ItemView| item_row(a));
        lemma_flat_holds(rows, i);
        lemma_text_within_part(
            "## 待办事项\n\n"@ + "| 事项 | 负责人 | 截止时间 |\n| --- | --- | --- |\n"@,
            rows.flatten_alt(),
            "\n"@,
            item_row(d[i]),
        );
        lemma_text_within_part(head, headed_table(d), tail, item_row(d[i]));
    }
    if i < s.segments.len() {
        let v = s.segments;
        lemma_place_of_topics(s);
        let head = choose|head: Seq<char>| #[trigger] before_transcript(s, head);
        let f = |x: SegmentView| "**["@ + clock(x.start as int) + "]** "@ + x.text + "\n\n"@;
        let parts = v.map_values(f);
        lemma_flat_holds(parts, i);
        assert(with_segments(s, v) == s);
        lemma_text_at_the_end(head + "## 完整转写\n\n"@, parts.flatten_alt(), f(v[i]));
    }
}

proof fn lemma_list_holds(
    heading: Seq<char>,
    d: Seq<Seq<char>>,
    head: Seq<char>,
    tail: Seq<char>,
    i: int,
)
    requires
        0 <= i < d.len(),
    ensures
        has_text(head + headed_list(heading, d) + tail, "- "@ + d[i] + "\n"@),
{
    let line = "- "@ + d[i] + "\n"@;
    lemma_flat_holds(d.map_values(|t: Seq<char>| "- "@ + t + "\n"@), i);
    lemma_text_within_part(heading, bulleted(d), "\n"@, line);
    lemma_text_within_part(head, headed_list(heading, d), tail, line);
}

proof fn lemma_text_at_the_end(a: Seq<char>, t: Seq<char>, x: Seq<char>)
    requires
        has_text(t, x),
    ensures
        has_text(a + t, x),
{
    let e = Seq::<char>::empty();
    lemma_text_within_part(a, t, e, x);
    assert(a + t + e =~= a + t);
}

proof fn lemma_text_stays(t: Seq<char>, b: Seq<char>, x: Seq<char>)
    requires
        has_text(t, x),
    ensures
        has_text(t + b, x),
{
    let e = Seq::<char>::empty();
    lemma_text_within_part(e, t, b, x);
    assert(e + t + b =~= t + b);
}

proof fn lemma_flat_holds(parts: Seq<Seq<char>>, i: int)
    requires
        0 <= i < parts.len(),
    ensures
        has_text(parts.flatten_alt(), parts[i]),
    decreases parts.len(),
{
    let e = Seq::<char>::empty();
    let head = parts.drop_last().flatten_alt();
    if i < parts.len() - 1 {
        lemma_flat_holds(parts.drop_last(), i);
        lemma_text_within_part(e, head, parts.last(), parts[i]);
        assert(e + head + parts.last() =~= parts.flatten_alt());
    } else {
        lemma_text_within(head, parts.last(), e);
        assert(head + parts.last() + e =~= parts.flatten_alt());
    }
}

/// Two sessions that differ in their decisions only have different documents, as long
/// as a decision is one line.
pub proof fn law_different_decisions_show(
    s: SessionView,
    a: Seq<Seq<char>>,
    b: Seq<Seq<char>>,
)
    requires
        one_liners(a),
        one_liners(b),
        markdown(with_decisions(s, a)) == markdown(with_decisions(s, b)),
    ensures
        a == b,
{
    law_each_part_of_the_minutes_has_its_place(s);
    let (head, tail) = choose|head: Seq<char>, tail: Seq<char>|
        #[trigger] around_decisions(s, head, tail);
    let h = "## 已达成的决定\n\n"@;
    let x = headed_list(h, a);
    let y = headed_list(h, b);
    reveal_strlit("\n");
    assert(markdown(with_decisions(s, a)) == head + x + tail);
    assert(markdown(with_decisions(s, b)) == head + y + tail);
    assert(x.len() == y.len());
    assert((head + x + tail).subrange(head.len() as int, (head.len() + x.len()) as int) =~= x);
    assert((head + y + tail).subrange(head.len() as int, (head.len() + y.len()) as int) =~= y);
    if a.len() > 0 && b.len() > 0 {
        assert(x.subrange(h.len() as int, x.len() - 1) =~= bulleted(a));
        assert(y.subrange(h.len() as int, y.len() - 1) =~= bulleted(b));
        lemma_bulleted_injective(a, b);
    } else {
        assert(a =~= b);
    }
}

/// Texts without line ends.
pub open spec fn one_liners(items: Seq<Seq<char>>) -> bool {
    forall|i: int| 0 <= i < items.len() ==> !(#[trigger] items[i]).contains('\n')
}

proof fn lemma_bulleted_injective(a: Seq<Seq<char>>, b: Seq<Seq<char>>)
    requires
        one_liners(a),
        one_liners(b),
        bulleted(a) == bulleted(b),
    ensures
        a == b,
    decreases a.len(),
{
    reveal_strlit("- ");
    reveal_strlit("\n");
    let f = |t: Seq<char>| "- "@ + t + "\n"@;
    lemma_bulleted_end(a);
    lemma_bulleted_end(b);
    if a.len() == 0 || b.len() == 0 {
        assert(a =~= b);
    } else {
        let x = bulleted(a.drop_last());
        let y = bulleted(b.drop_last());
        let la = "- "@ + a.last() + "\n"@;
        let lb = "- "@ + b.last() + "\n"@;
        let whole = bulleted(a);
        assert(whole == x + la && whole == y + lb);
        assert(!a[a.len() - 1].contains('\n'));
        assert(!b[b.len() - 1].contains('\n'));
        lemma_bulleted_end(a.drop_last());
        lemma_bulleted_end(b.drop_last());
        if la.len() < lb.len() {
            assert(x.len() > 0);
            assert(whole[x.len() - 1] == '\n');
            let j = x.len() - 1 - y.len();
            assert(lb[j] == whole[x.len() - 1]);
            assert(0 <= j < lb.len() - 1);
            if j >= 2 {
                assert(b.last()[j - 2] == '\n');
            }
            assert(false);
        }
        if lb.len() < la.len() {
            assert(y.len() > 0);
            assert(whole[y.len() - 1] == '\n');
            let j = y.len() - 1 - x.len();
            assert(la[j] == whole[y.len() - 1]);
            if j >= 2 {
                assert(a.last()[j - 2] == '\n');
            }
            assert(false);
        }
        assert(x =~= whole.take(x.len() as int));
        assert(y =~= whole.take(y.len() as int));
        assert(la =~= whole.skip(x.len() as int));
        assert(lb =~= whole.skip(y.len() as int));
        assert(la.subrange(2, la.len() - 1) =~= a.last());
        assert(lb.subrange(2, lb.len() - 1) =~= b.last());
        assert forall|i: int| 0 <= i < a.drop_last().len() implies !(
        #[trigger] a.drop_last()[i]).contains('\n') by {
            assert(a.drop_last()[i] == a[i]);
        }
        assert forall|i: int| 0 <= i < b.drop_last().len() implies !(
        #[trigger] b.drop_last()[i]).contains('\n') by {
            assert(b.drop_last()[i] == b[i]);
        }
        lemma_bulleted_injective(a.drop_last(), b.drop_last());
        assert(a =~= a.drop_last().push(a.last()));
        assert(b =~= b.drop_last().push(b.last()));
    }
}

proof fn lemma_bulleted_end(a: Seq<Seq<char>>)
    ensures
        a.len() > 0 ==> bulleted(a) == bulleted(a.drop_last()) + ("- "@ + a.last() + "\n"@),
        a.len() > 0 ==> bulleted(a).len() > 0 && bulleted(a).last() == '\n',
        a.len() == 0 ==> bulleted(a).len() == 0,
{
    reveal_strlit("- ");
    reveal_strlit("\n");
    let f = |t: Seq<char>| "- "@ + t + "\n"@;
    if a.len() > 0 {
        assert(a.map_values(f).drop_last() =~= a.drop_last().map_values(f));
    }
}

/// The table tells when the session began, how long it lasted, how long speech was
/// heard, how much was said, and by what it was recognised.
pub proof fn law_document_tells_the_facts(s: SessionView)
    ensures
        ("# "@ + s.title + "\n\n"@).is_prefix_of(markdown(s)),
        has_text(markdown(s), "| 开始时间 | "@ + created_text(s.created_at) + " |\n"@),
        has_text(markdown(s), "| 时长 | "@ + clock(s.duration as int) + " |\n"@),
        has_text(markdown(s), "| 识别服务 | "@ + s.config.model_id + " |\n"@),
        has_text(markdown(s), "| 语音时长 | "@ + clock(s.stats.speech_ms as int) + " |\n"@),
        has_text(markdown(s), "| 字数 | "@ + signed_decimal(s.stats.chars as int) + " |\n"@),
{
    let h = "| 项目 | 内容 |\n| --- | --- |\n"@;
    let e = " |\n"@;
    let f1 = "| 开始时间 | "@ + created_text(s.created_at) + e;
    let f2 = "| 时长 | "@ + clock(s.duration as int) + e;
    let f3 = "| 识别服务 | "@ + s.config.model_id + e;
    let f4 = "| 音频来源 | "@ + joined(sources(s.config), " + "@) + e;
    let f5 = "| 语音时长 | "@ + clock(s.stats.speech_ms as int) + e;
    let f6 = "| 字数 | "@ + signed_decimal(s.stats.chars as int) + e;
    let h1 = h + f1;
    let h2 = h1 + f2;
    let h3 = h2 + f3;
    let h4 = h3 + f4;
    let h5 = h4 + f5;
    let h6 = h5 + f6;
    lemma_assoc3(h, "| 开始时间 | "@, created_text(s.created_at), e);
    lemma_assoc3(h1, "| 时长 | "@, clock(s.duration as int), e);
    lemma_assoc3(h2, "| 识别服务 | "@, s.config.model_id, e);
    lemma_assoc3(h3, "| 音频来源 | "@, joined(sources(s.config), " + "@), e);
    lemma_assoc3(h4, "| 语音时长 | "@, clock(s.stats.speech_ms as int), e);
    lemma_assoc3(h5, "| 字数 | "@, signed_decimal(s.stats.chars as int), e);
    assert(facts_table(s) == h6 + "\n"@);
    lemma_row(h, f1);
    lemma_text_stays(h1, f2, f1);
    lemma_row(h1, f2);
    lemma_text_stays(h2, f3, f1);
    lemma_text_stays(h2, f3, f2);
    lemma_row(h2, f3);
    lemma_text_stays(h3, f4, f1);
    lemma_text_stays(h3, f4, f2);
    lemma_text_stays(h3, f4, f3);
    lemma_text_stays(h4, f5, f1);
    lemma_text_stays(h4, f5, f2);
    lemma_text_stays(h4, f5, f3);
    lemma_row(h4, f5);
    lemma_text_stays(h5, f6, f1);
    lemma_text_stays(h5, f6, f2);
    lemma_text_stays(h5, f6, f3);
    lemma_text_stays(h5, f6, f5);
    lemma_row(h5, f6);
    lemma_fact_shows(s, h6, f1);
    lemma_fact_shows(s, h6, f2);
    lemma_fact_shows(s, h6, f3);
    lemma_fact_shows(s, h6, f5);
    lemma_fact_shows(s, h6, f6);
    lemma_title_first(s);
}

proof fn lemma_row(a: Seq<char>, x: Seq<char>)
    ensures
        has_text(a + x, x),
{
    let e = Seq::<char>::empty();
    lemma_text_within(a, x, e);
    assert(a + x + e =~= a + x);
}

proof fn lemma_fact_shows(s: SessionView, facts: Seq<char>, x: Seq<char>)
    requires
        facts_table(s) == facts + "\n"@,
        has_text(facts, x),
    ensures
        has_text(markdown(s), x),
{
    let y = s.summary;
    lemma_text_stays(facts, "\n"@, x);
    lemma_text_at_the_end("# "@ + s.title + "\n\n"@, facts_table(s), x);
    let r = report_chapter(s.report_md);
    let o = chapter("## 总览\n\n"@, y.overview);
    let m = chapter("## 纪要要点\n\n"@, y.summary);
    lemma_closing_chapters(s);
    lemma_text_stays(opening(s), r, x);
    lemma_text_stays(opening(s) + r, o, x);
    lemma_text_stays(opening(s) + r + o, m, x);
    lemma_text_stays(opening(s) + r + o + m, closing_chapters(s), x);
}

proof fn lemma_title_first(s: SessionView)
    ensures
        ("# "@ + s.title + "\n\n"@).is_prefix_of(markdown(s)),
{
    let y = s.summary;
    let top = "# "@ + s.title + "\n\n"@;
    let f = facts_table(s);
    let r = report_chapter(s.report_md);
    let o = chapter("## 总览\n\n"@, y.overview);
    let m = chapter("## 纪要要点\n\n"@, y.summary);
    lemma_closing_chapters(s);
    lemma_assoc4(top, f, r, o, m);
    lemma_assoc(top, f + r + o + m, closing_chapters(s));
    let rest = f + r + o + m + closing_chapters(s);
    assert(markdown(s) == top + rest);
    assert((top + rest).take(top.len() as int) =~= top);
}

/// As plain text a session is its title, when it was and how long it lasted, and then
/// every segment on a line of its own with the time at which it begins, in order.
pub proof fn law_plain_text_holds_every_segment(s: SessionView)
    ensures
        plain_text(s) == s.title + "\n"@ + created_text(s.created_at) + " · 时长 "@ + clock(
            s.duration as int,
        ) + "\n\n"@ + s.segments.map_values(
            |x: SegmentView| "["@ + clock(x.start as int) + "] "@ + x.text + "\n"@,
        ).flatten_alt(),
{
    lemma_all_lines(s.segments);
}

proof fn lemma_all_lines(v: Seq<SegmentView>)
    ensures
        all_lines(v) == v.map_values(
            |x: SegmentView| "["@ + clock(x.start as int) + "] "@ + x.text + "\n"@,
        ).flatten_alt(),
    decreases v.len(),
{
    let f = |x: SegmentView| "["@ + clock(x.start as int) + "] "@ + x.text + "\n"@;
    let m = v.map_values(f);
    if v.len() > 0 {
        lemma_all_lines(v.drop_last());
        assert(m.drop_last() =~= v.drop_last().map_values(f));
    }
}

/// Each segment is one subtitle, numbered from one in order, shown from its start to
/// its end and for a fifth of a second at least.
pub proof fn law_each_segment_is_one_subtitle(v: Seq<SegmentView>, x: SegmentView)
    ensures
        subtitles(Seq::empty()) == Seq::<char>::empty(),
        ({
            let end = if x.end - x.start >= 200 {
                x.end as int
            } else {
                x.start + 200
            };
            subtitles(v.push(x)) == subtitles(v) + (decimal(v.len() + 1) + "\n"@ + srt_time(
                x.start as int,
            ) + " --> "@ + srt_time(end) + "\n"@ + x.text + "\n\n"@)
        }),
{
    assert(v.push(x).drop_last() =~= v);
}

/// The time of a subtitle: hours, minutes, seconds and thousandths.
pub proof fn law_subtitle_times_are_exact(h: nat, m: nat, s: nat, ms: nat)
    requires
        m < 60,
        s < 60,
        ms < 1000,
    ensures
        srt_time((3_600_000 * h + 60_000 * m + 1000 * s + ms) as int) == two_digits(h) + ":"@ + two_digits(m)
            + ":"@ + two_digits(s) + ","@ + zero_padded(decimal(ms), 3),
        srt_time(-1 - ms) == srt_time(0),
{
    let t = 3_600_000 * h + 60_000 * m + 1000 * s + ms;
    assert(t / 3_600_000 == h);
    assert(t % 3_600_000 / 60_000 == m);
    assert(t % 60_000 / 1000 == s);
    assert(t % 1000 == ms);
}

/// What [`render_markdown`] writes: every decision, key point and word of the session,
/// under the session's title.
pub proof fn law_markdown_holds_the_whole_session(s: &Session, r: String, i: int)
    requires
        call_ensures(render_markdown, (s,), r),
        0 <= i,
    ensures
        ("# "@ + s.title@ + "\n\n"@).is_prefix_of(r@),
        i < s.summary.decisions@.len() ==> has_text(
            r@,
            "- "@ + s.summary.decisions@[i]@ + "\n"@,
        ),
        i < s.summary.key_points@.len() ==> has_text(
            r@,
            "- "@ + s.summary.key_points@[i]@ + "\n"@,
        ),
        i < s.segments@.len() ==> has_text(
            r@,
            "**["@ + clock(s.segments@[i].start_ms as int) + "]** "@ + s.segments@[i].text@
                + "\n\n"@,
        ),
        exists|head: Seq<char>, tail: Seq<char>| #[trigger]
            around_decisions(s@, head, tail) && r@ == head + headed_list(
                "## 已达成的决定\n\n"@,
                s@.summary.decisions,
            ) + tail,
{
    law_document_holds_every_decision(s@, i);
    law_document_tells_the_facts(s@);
    if i < s.summary.decisions@.len() {
        assert(s@.summary.decisions[i] == s.summary.decisions@[i]@);
    }
    if i < s.summary.key_points@.len() {
        assert(s@.summary.key_points[i] == s.summary.key_points@[i]@);
    }
    if i < s.segments@.len() {
        assert(s@.segments[i] == s.segments@[i]@);
    }
    law_each_part_of_the_minutes_has_its_place(s@);
    let (head, tail) = choose|head: Seq<char>, tail: Seq<char>|
        #[trigger] around_decisions(s@, head, tail);
    assert(with_decisions(s@, s@.summary.decisions) == s@);
    assert(around_decisions(s@, head, tail) && r@ == head + headed_list(
        "## 已达成的决定\n\n"@,
        s@.summary.decisions,
    ) + tail);
}

/// What [`render_text`] and [`render_srt`] write, and that an export is in the format
/// that was asked for.
pub proof fn law_exports_are_in_the_format_asked_for(
    s: &Session,
    format: ExportFormat,
    r: Option<String>,
    text: String,
    srt: String,
    md: String,
)
    requires
        call_ensures(render_export, (s, format), r),
        call_ensures(render_text, (s,), text),
        call_ensures(render_srt, (s,), srt),
        call_ensures(render_markdown, (s,), md),
    ensures
        text@ == s.title@ + "\n"@ + created_text(s.created_at) + " · 时长 "@ + clock(
            s.duration_ms as int,
        ) + "\n\n"@ + s@.segments.map_values(
            |x: SegmentView| "["@ + clock(x.start as int) + "] "@ + x.text + "\n"@,
        ).flatten_alt(),
        srt@ == subtitles(s@.segments),
        format == ExportFormat::Markdown ==> (r matches Some(x) && x@ == md@),
        format == ExportFormat::Text ==> (r matches Some(x) && x@ == text@),
        format == ExportFormat::Srt ==> (r matches Some(x) && x@ == srt@),
        format == ExportFormat::Json ==> r is None,
{
    law_plain_text_holds_every_segment(s@);
}

/// Formats are known by their usual names, and give files their usual endings.
pub proof fn law_formats_are_known_by_name(name: &str, r: AppResult<ExportFormat>)
    requires
        call_ensures(ExportFormat::parse, (name,), r),
    ensures
        ascii_lowered(trimmed(name@)) == "md"@ ==> r == Ok::<ExportFormat, AppError>(
            ExportFormat::Markdown,
        ),
        ascii_lowered(trimmed(name@)) == "txt"@ ==> r == Ok::<ExportFormat, AppError>(
            ExportFormat::Text,
        ),
        ascii_lowered(trimmed(name@)) == "srt"@ ==> r == Ok::<ExportFormat, AppError>(
            ExportFormat::Srt,
        ),
        ascii_lowered(trimmed(name@)) == "json"@ ==> r == Ok::<ExportFormat, AppError>(
            ExportFormat::Json,
        ),
{
    reveal_strlit("md");
    reveal_strlit("markdown");
    reveal_strlit("txt");
    reveal_strlit("text");
    reveal_strlit("srt");
    reveal_strlit("json");
    assert("md"@.len() == 2 && "markdown"@.len() == 8 && "txt"@.len() == 3 && "text"@.len() == 4);
    assert("srt"@.len() == 3 && "json"@.len() == 4);
    assert("srt"@[0] == 's' && "txt"@[0] == 't' && "json"@[0] == 'j' && "text"@[0] == 't');
}

/// The document says where the audio came from: the microphone, the sound of the
/// system, both in this order, or a file.
pub proof fn law_document_tells_the_sources(s: SessionView, c: ConfigView)
    ensures
        c.enable_mic && c.enable_loopback ==> joined(sources(c), " + "@) == source_text(
            "麦克风"@,
            c.mic_label,
        ) + " + "@ + source_text("系统声音"@, c.loopback_label),
        c.enable_mic && !c.enable_loopback ==> sources(c) == seq![
            source_text("麦克风"@, c.mic_label),
        ],
        !c.enable_mic && c.enable_loopback ==> sources(c) == seq![
            source_text("系统声音"@, c.loopback_label),
        ],
        !c.enable_mic && !c.enable_loopback ==> sources(c) == seq!["音频文件"@],
        has_text(facts_table(s), "| 音频来源 | "@ + joined(sources(s.config), " + "@) + " |\n"@),
{
    if c.enable_mic && c.enable_loopback {
        let both = sources(c);
        assert(both.drop_last() =~= seq![both[0]]);
        assert(joined(both.drop_last(), " + "@) == both[0]);
    }
    let e = " |\n"@;
    let v = joined(sources(s.config), " + "@);
    let row = "| 音频来源 | "@ + v + e;
    let head = "| 项目 | 内容 |\n| --- | --- |\n"@ + "| 开始时间 | "@ + created_text(s.created_at)
        + " |\n"@ + "| 时长 | "@ + clock(s.duration as int) + " |\n"@ + "| 识别服务 | "@
        + s.config.model_id + " |\n"@;
    let a = "| 语音时长 | "@;
    let b = clock(s.stats.speech_ms as int);
    let f = "| 字数 | "@;
    let g = signed_decimal(s.stats.chars as int);
    lemma_assoc3(head, "| 音频来源 | "@, v, e);
    lemma_row(head, row);
    let t0 = head + row;
    lemma_text_stays(t0, a, row);
    lemma_text_stays(t0 + a, b, row);
    lemma_text_stays(t0 + a + b, e, row);
    lemma_text_stays(t0 + a + b + e, f, row);
    lemma_text_stays(t0 + a + b + e + f, g, row);
    lemma_text_stays(t0 + a + b + e + f + g, e, row);
    lemma_text_stays(t0 + a + b + e + f + g + e, "\n"@, row);
    assert(facts_table(s) == t0 + a + b + e + f + g + e + "\n"@);
}

/// A file is named after the time and the title of the session, and ends as its format
/// does.
pub proof fn law_files_are_named_after_the_session(
    when: Seq<char>,
    title: Seq<char>,
    extension: Seq<char>,
)
    ensures
        export_name(Some(when), title, extension) == when + "-"@ + file_name(title, "会议"@) + "."@
            + extension,
        export_name(None, title, extension) == "meeting"@ + "-"@ + file_name(title, "会议"@) + "."@
            + extension,
        ExportFormat::Markdown.extension_text() == "md"@,
        ExportFormat::Text.extension_text() == "txt"@,
        ExportFormat::Srt.extension_text() == "srt"@,
        ExportFormat::Json.extension_text() == "json"@,
{
}

} // verus!
