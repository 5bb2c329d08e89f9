//! What is sent to the language model.
//!
//! Minutes are kept rolling: each request carries the minutes so far and what was
//! said since, so that the length of a request does not grow with the meeting.
//! Minutes look back on a stretch of time that has passed; they are no captions.

use vstd::prelude::*;
use vstd::string::*;
use crate::ai::client::ChatMessage;
use crate::ai::client::MessageView;
use crate::ai::client::message_views;
use crate::text::ascii_lowered;
use crate::text::blank;
use crate::text::decimal;
use crate::text::decimal_of;
use crate::text::has_text;
use crate::text::is_blank;
use crate::text::join;
use crate::text::joined;
use crate::text::lemma_joined_holds;
use crate::text::lemma_text_within;
use crate::text::lemma_text_within_part;
use crate::text::occurs_at;
use crate::text::same;
use crate::text::to_ascii_lowered;
use crate::text::trim;
use crate::text::trimmed;
use crate::text::views;
use crate::util::clock;
use crate::util::format_clock;
use crate::util::truncate_chars;
use crate::util::truncated;

verus! {

/// The fields of a reply, for a lecture.
pub const SUMMARY_SCHEMA_LECTURE: &'static str = r#"{
  "live": "字符串。最近这一段在讲什么，1~2 句话，要具体到术语与结论；没有新内容则给空字符串",
  "overview": "字符串。这场讲座到目前为止的 2~4 句脉络总览",
  "sections": [{"title": "知识模块标题", "points": ["该模块讲到的知识点"], "untilMs": 0}],
  "keyPoints": ["字符串数组。核心概念、定义、定理、公式、重要数据"],
  "decisions": ["字符串数组。讲者明确强调的结论、易错点、重要提醒"],
  "actionItems": [{"text": "课后需要复习、练习或查阅的点", "owner": "留空字符串", "due": "留空字符串"}],
  "topics": ["字符串数组。当前讲解的知识模块关键词，最多 6 个"]
}"#;

/// The fields of a reply, for a meeting.
pub const SUMMARY_SCHEMA: &'static str = r#"{
  "live": "字符串。最近几句在说什么，1~2 句话，要具体到人名、数字、结论；没有新内容则给空字符串",
  "overview": "字符串。整场会议到目前为止的 2~4 句总览",
  "sections": [{"title": "分段标题", "points": ["该段的要点"], "untilMs": 0}],
  "keyPoints": ["字符串数组。关键结论、重要事实、关键数字"],
  "decisions": ["字符串数组。已经明确达成的决定"],
  "actionItems": [{"text": "待办事项", "owner": "负责人，不知道就填空字符串", "due": "截止时间，不知道就填空字符串"}],
  "topics": ["字符串数组。当前正在讨论的主题关键词，最多 6 个"]
}"#;

/// Instructions for minutes of a meeting.
pub const SUMMARY_SYSTEM_MEETING: &'static str = r#"你是一名资深会议秘书，负责在会议进行中**滚动维护**一份会议纪要。

注意：你不是在写实时字幕。转写负责实时出字，你负责**回头看已经说过的那一段**，
把它整理成结论性内容。所以你收到的永远是「一段时间区间内的新增内容」。

你会收到：① 已有纪要（上一次的成果，可能为空）② 本次新增的语音转写内容 ③ 最近一段时间的对话原文。

你的任务是基于已有纪要做**增量更新**，输出更新后的完整纪要。

必须严格遵守：
0. **绝对不要照抄解释文字或任何示例**。输出里的每一个词都必须来自用户消息里的转写内容。
   本提示词只用来说明规则，里面出现的任何具体说法都不是给你的素材。
1. 只使用转写内容里出现过的信息。绝对不要编造、不要脑补、不要补充常识性背景。信息不足时留空字符串或空数组。
2. 保留已有纪要中仍然有效的信息；新增内容与已有内容重复时合并，不要重复列出。
3. 可以修正明显的语音识别错误（同音字、专有名词、人名），但不得改变原意，也不要凭空替换整句。
4. 全部使用简体中文，风格简洁、要点化。不要问候语，不要"好的""收到""作为AI"这类话。
5. 严格只输出一个 JSON 对象，不要包裹 markdown 代码块，不要输出任何解释文字。
6. JSON 的键名必须与下面给出的模式完全一致。
7. 用户消息里的「已有纪要」是**输入数据**，不是输出模板；不要把它抄进输出里。
8. live / overview / summary 都必须是你自己的**概括**，绝不能直接复制转写原文。
9. 如果转写内容明显语义不通（语音识别质量差、夹杂大量错字），就如实写"识别质量较差，内容待确认"，
   绝对不要为了凑出一份像样的纪而去编造会议内容。
10. **绝对不要重复**：同一个要点只能出现一次。如果信息很少，就少写几条，
    宁可比要求的更短，也不要靠复读凑长度。整个 JSON 控制在 800 字以内。

分段规则（sections，最重要）：
- 纪要要呈现的是**从会议开始到现在的全部内容**，不是只有最近一段。
- 按议题/阶段把内容切成若干段，每段一个短标题（4~12 字，如「三季度复盘」「上线节奏」）。
- **每次都必须输出完整的分段列表**：包含之前已有的所有段 + 这次新增或变化的内容。
  「已有纪要」里的段要原样带上（可以改标题用词，但不能丢内容）。
- 内容变多时**重新分段**：同一议题的内容要合进同一段；如果一段里混进了明显不同的话题，
  就把它拆成两段。分段的粒度以「打开纪要的人能快速找到他关心的那块」为准。
- 一段要点 2~6 条，写结论和关键数字，不要写流水账。
- 已结束的旧话题保持简短，把要点留给当前正在讨论的内容。
- untilMs 填这一段最后一条内容对应的会议时间（毫秒）；不确定就填 0。

字段含义（会议场景）：
- live：最近这一段（已过去的几十秒到几分钟）在说什么，1~2 句，要具体到人名、数字、结论
- overview：整场会议到目前为止的 2~4 句总览
- sections：**最重要**，见下面「分段规则」。整份笔记的内容都在这里。。整份纪要的内容都在这里。
- keyPoints：关键结论、重要事实、关键数字
- decisions：已经明确达成的决定（没达成就是空数组）
- actionItems：待办，尽量带负责人与截止时间；不确定就留空字符串
- topics：当前讨论的主题关键词，最多 6 个

**不要照抄任何示例文本**：本提示词里出现的任何举例内容都与你的输入无关。
你只能依据用户消息里给出的转写内容来写，一个词都不许来自提示词本身。"#;

/// Instructions for notes of a lecture.
pub const SUMMARY_SYSTEM_LECTURE: &'static str = r#"你是一名专业的学习笔记整理者，负责在一场讲座 / 课程进行中**滚动维护**一份知识笔记。

注意：你不是在写实时字幕。转写负责实时出字，你负责**回头看已经讲过的那一段**，
把它整理成结构化的知识内容。所以你收到的永远是「一段时间区间内的新增内容」。

你会收到：① 已有笔记（上一次的成果，可能为空）② 本次新增的语音转写内容 ③ 最近一段时间的讲解原文。

你的任务是基于已有笔记做**增量更新**，输出更新后的完整笔记。

必须严格遵守：
0. **绝对不要照抄解释文字或任何示例**。输出里的每一个词都必须来自用户消息里的转写内容。
   本提示词只用来说明规则，里面出现的任何具体说法都不是给你的素材。
1. 只使用转写内容里出现过的信息。绝对不要补充讲者没讲过的知识、不要脑补教材内容、不要自行推导结论。
2. 保留已有笔记中仍然有效的内容；重复讲的合并，不要重复列出。
3. 修正明显的语音识别错误（同音字、专业术语、人名、数字），但不得改变原意。
4. 全部使用简体中文，风格像一份可以直接复习的笔记：概念清楚、层次分明。
5. 严格只输出一个 JSON 对象，不要包裹 markdown 代码块，不要输出任何解释文字。
6. JSON 的键名必须与下面给出的模式完全一致。
7. 用户消息里的「已有笔记」是**输入数据**，不是输出模板；不要把它抄进输出里。
8. live / overview / summary 都必须是概括，绝不能直接复制讲稿原文。
9. 讲者没讲完、语义不完整的地方，就如实略过或写"此处内容不完整"，
   绝对不要为了讲得通而编造内容。
10. **绝对不要重复**：同一个知识点只出现一次。信息少就少写，不要靠复读凑长度。
    整个 JSON 控制在 800 字以内。

分段规则（sections，最重要）：
- 笔记要呈现的是**从讲座开始到现在的全部内容**，不是只有最近一段。
- 按**知识模块**切段，每段一个短标题（4~12 字，如「注意力机制」「梯度消失」）。
- **每次都必须输出完整的分段列表**：包含之前已有的所有段 + 这次新增的知识点。
  「已有内容」里的段要原样带上，不能丢。
- 讲到新模块时新增一段；同一模块的补充内容追加到对应段里；模块划分不合理时重新分段。
- 一段 2~6 条，写知识点本身（定义、结论、公式、数字），不要写「讲者说了什么」这类元描述。
- untilMs 填这一段最后一条内容对应的讲解时间（毫秒）；不确定就填 0。

字段含义（讲座场景，注意与会议不同）：
- live：最近这一段（已过去的几十秒到几分钟）在讲什么，1~2 句，要具体到术语与结论
- overview：这场讲座到目前为止讲了什么、脉络是什么，2~4 句
- summary：markdown 无序列表，每行以 "- " 开头，**按知识模块聚类**的知识笔记，最多 12 行
- keyPoints：核心概念、定义、定理、公式、重要数据等需要记住的东西
- decisions：讲者明确强调过的结论、易错点、重要提醒（没有就是空数组）
- actionItems：课后需要复习、练习或查阅的点（没有就是空数组）
- topics：当前讲解的知识模块关键词，最多 6 个

**不要照抄任何示例文本**：本提示词里出现的任何举例内容都与你的输入无关。
你只能依据用户消息里给出的内容来写，一个词都不许来自提示词本身。"#;

pub const SUMMARY_SCHEMA_HINT: &'static str = SUMMARY_SCHEMA;

pub const SUMMARY_SYSTEM: &'static str = SUMMARY_SYSTEM_MEETING;

/// Instructions for the report on a whole meeting.
pub const REPORT_SYSTEM: &'static str = r#"你是一名资深会议秘书。用户会给你一场会议的完整语音转写，请整理成一份专业的会议纪要（Markdown）。

输出结构（严格按此顺序，使用二级标题）：
## 一、会议主题
## 二、会议信息
## 三、核心结论
## 四、讨论纪要
## 五、待办事项
## 六、风险与待决问题

要求：
- 只依据转写内容。转写来自语音识别，可能有错别字、口语重复、无意义语气词，请合理清理，但不得改变原意。
- 「待办事项」用 Markdown 表格：| 事项 | 负责人 | 截止时间 |。负责人不明写"待确认"。
- 不要编造参会人姓名、公司名、具体数字。转写里没有的就写"待确认"或直接不写。
- 使用简体中文，语言凝练、可直接发给参会人。不要任何解释性开场白或结束语。"#;

/// A section of the minutes so far.
#[derive(Debug)]
pub struct SectionLine {
    pub title: String,
    pub points: Vec<String>,
}

/// What is recorded: the fields of the minutes mean different things.
#[derive(Clone, Copy, Debug, PartialEq, Eq, Structural)]
pub enum SummaryMode {
    Meeting,
    Lecture,
}

/// How the parts of the minutes are called.
#[derive(Clone, Copy)]
pub struct Labels {
    pub overview: &'static str,
    pub sections: &'static str,
    pub points: &'static str,
    pub decisions: &'static str,
    pub actions: &'static str,
}

/// Whether a text names lectures.
pub open spec fn names_lecture(raw: Seq<char>) -> bool {
    let t = ascii_lowered(trimmed(raw));
    t == "lecture"@ || t == "talk"@ || t == "course"@ || t == "讲座"@ || t == "课程"@
}

/// The mode that a setting names; meetings if it names none.
pub open spec fn mode_of(raw: Seq<char>) -> SummaryMode {
    if names_lecture(raw) {
        SummaryMode::Lecture
    } else {
        SummaryMode::Meeting
    }
}

impl SummaryMode {
    pub fn parse(raw: &str) -> (r: SummaryMode)
        ensures
            r == mode_of(raw@),
    {
        let lower = to_ascii_lowered(trim(raw));
        let t = lower.as_str();
        if same(t, "lecture") || same(t, "talk") || same(t, "course") || same(t, "讲座") || same(
            t,
            "课程",
        ) {
            SummaryMode::Lecture
        } else {
            SummaryMode::Meeting
        }
    }

    pub fn as_str(&self) -> (r: &'static str)
        ensures
            r@ == match *self {
                SummaryMode::Meeting => "meeting"@,
                SummaryMode::Lecture => "lecture"@,
            },
    {
        match self {
            SummaryMode::Meeting => "meeting",
            SummaryMode::Lecture => "lecture",
        }
    }

    pub open spec fn schema_text(self) -> Seq<char> {
        match self {
            SummaryMode::Meeting => SUMMARY_SCHEMA@,
            SummaryMode::Lecture => SUMMARY_SCHEMA_LECTURE@,
        }
    }

    pub fn schema(&self) -> (r: &'static str)
        ensures
            r@ == self.schema_text(),
    {
        match self {
            SummaryMode::Meeting => SUMMARY_SCHEMA,
            SummaryMode::Lecture => SUMMARY_SCHEMA_LECTURE,
        }
    }

    pub open spec fn system_text(self) -> Seq<char> {
        match self {
            SummaryMode::Meeting => SUMMARY_SYSTEM_MEETING@,
            SummaryMode::Lecture => SUMMARY_SYSTEM_LECTURE@,
        }
    }

    pub fn system_prompt(&self) -> (r: &'static str)
        ensures
            r@ == self.system_text(),
    {
        match self {
            SummaryMode::Meeting => SUMMARY_SYSTEM_MEETING,
            SummaryMode::Lecture => SUMMARY_SYSTEM_LECTURE,
        }
    }

    pub open spec fn label_texts(self) -> Labels {
        match self {
            SummaryMode::Meeting => Labels {
                overview: "会议总览",
                sections: "已分段纪要",
                points: "关键结论",
                decisions: "已达成的决定",
                actions: "待办事项",
            },
            SummaryMode::Lecture => Labels {
                overview: "内容脉络",
                sections: "已分模块笔记",
                points: "核心概念",
                decisions: "讲者强调的结论",
                actions: "课后要做的事",
            },
        }
    }

    pub fn labels(&self) -> (r: Labels)
        ensures
            r == self.label_texts(),
    {
        match self {
            SummaryMode::Meeting => Labels {
                overview: "会议总览",
                sections: "已分段纪要",
                points: "关键结论",
                decisions: "已达成的决定",
                actions: "待办事项",
            },
            SummaryMode::Lecture => Labels {
                overview: "内容脉络",
                sections: "已分模块笔记",
                points: "核心概念",
                decisions: "讲者强调的结论",
                actions: "课后要做的事",
            },
        }
    }
}

// ---------------------------------------------------------------------------
// The minutes so far
// ---------------------------------------------------------------------------

/// A list, or a note that there is none.
pub open spec fn listed(items: Seq<Seq<char>>) -> Seq<char> {
    if items.len() == 0 {
        "（暂无）"@
    } else {
        joined(items.map_values(|s: Seq<char>| "- "@ + trimmed(s)), "\n"@)
    }
}

/// Each text with `prefix` before it.
fn prefix_all(items: &Vec<String>, prefix: &str, trims: bool) -> (r: Vec<String>)
    ensures
        views(r@) == views(items@).map_values(
            |s: Seq<char>|
                prefix@ + if trims {
                    trimmed(s)
                } else {
                    s
                },
        ),
{
    let n: usize = items.len();
    let mut out: Vec<String> = Vec::new();
    let mut i: usize = 0;
    while i < n
        invariant
            i <= n == items@.len(),
            out@.len() == i,
            forall|k: int|
                0 <= k < i ==> (#[trigger] out@[k])@ == prefix@ + if trims {
                    trimmed(items@[k]@)
                } else {
                    items@[k]@
                },
        decreases n - i,
    {
        let mut s = prefix.to_owned();
        if trims {
            s.append(trim(items[i].as_str()));
        } else {
            s.append(items[i].as_str());
        }
        out.push(s);
        i += 1;
    }
    proof {
        assert(views(out@) =~= views(items@).map_values(
            |s: Seq<char>|
                prefix@ + if trims {
                    trimmed(s)
                } else {
                    s
                },
        ));
    }
    out
}

fn join_or_empty(items: &Vec<String>) -> (r: String)
    ensures
        r@ == listed(views(items@)),
{
    proof {
        assert(views(items@).len() == items@.len());
    }
    if items.len() == 0 {
        return "（暂无）".to_owned();
    }
    let all = prefix_all(items, "- ", true);
    proof {
        assert(views(all@) =~= views(items@).map_values(|s: Seq<char>| "- "@ + trimmed(s)));
    }
    join(&all, "\n")
}

/// Model of [`SectionLine`].
#[verifier::ext_equal]
pub ghost struct SectionLineView {
    pub title: Seq<char>,
    pub points: Seq<Seq<char>>,
}

impl View for SectionLine {
    type V = SectionLineView;

    open spec fn view(&self) -> SectionLineView {
        SectionLineView { title: self.title@, points: views(self.points@) }
    }
}

pub open spec fn section_line_views(v: Seq<SectionLine>) -> Seq<SectionLineView> {
    v.map_values(|s: SectionLine| s@)
}

/// A section with its points.
pub open spec fn section_block(s: SectionLineView) -> Seq<char> {
    "■ "@ + s.title + "\n"@ + joined(s.points.map_values(|p: Seq<char>| "  - "@ + p), "\n"@)
}

/// All sections, or a note that there are none.
pub open spec fn sections_block(sections: Seq<SectionLineView>) -> Seq<char> {
    if sections.len() == 0 {
        "（暂无）"@
    } else {
        joined(sections.map_values(|s: SectionLineView| section_block(s)), "\n"@)
    }
}

fn render_sections(sections: &Vec<SectionLine>) -> (r: String)
    ensures
        r@ == sections_block(section_line_views(sections@)),
{
    let n: usize = sections.len();
    if n == 0 {
        return "（暂无）".to_owned();
    }
    let mut out: Vec<String> = Vec::new();
    let mut i: usize = 0;
    while i < n
        invariant
            i <= n == sections@.len(),
            out@.len() == i,
            forall|k: int| 0 <= k < i ==> (#[trigger] out@[k])@ == section_block(sections@[k]@),
        decreases n - i,
    {
        let s = &sections[i];
        let points = prefix_all(&s.points, "  - ", false);
        proof {
            assert(views(points@) =~= s@.points.map_values(|p: Seq<char>| "  - "@ + p));
        }
        let mut t = "■ ".to_owned();
        t.append(s.title.as_str());
        t.append("\n");
        t.append(join(&points, "\n").as_str());
        out.push(t);
        i += 1;
    }
    proof {
        assert(views(out@) =~= section_line_views(sections@).map_values(
            |s: SectionLineView| section_block(s),
        ));
    }
    join(&out, "\n")
}

/// A text, or a note that there is none.
pub open spec fn text_or_none(s: Seq<char>) -> Seq<char> {
    if trimmed(s).len() == 0 {
        "（暂无）"@
    } else {
        trimmed(s)
    }
}

fn render_text<'a>(s: &'a str) -> (r: &'a str)
    ensures
        r@ == text_or_none(s@),
{
    let t = trim(s);
    if t.unicode_len() == 0 {
        "（暂无）"
    } else {
        t
    }
}

/// The minutes so far, as a request shows them.
pub ghost struct KnownView {
    pub overview: Seq<char>,
    pub sections: Seq<SectionLineView>,
    pub summary: Seq<char>,
    pub key_points: Seq<Seq<char>>,
    pub decisions: Seq<Seq<char>>,
    pub action_items: Seq<char>,
    pub topics: Seq<Seq<char>>,
}

impl KnownView {
    pub open spec fn empty(self) -> bool {
        &&& blank(self.overview)
        &&& self.sections.len() == 0
        &&& blank(self.summary)
        &&& self.key_points.len() == 0
        &&& self.decisions.len() == 0
        &&& blank(self.action_items)
        &&& self.topics.len() == 0
    }

    /// Where there are no minutes yet, not even the names of their parts are
    /// shown, lest a small model copy them.
    pub open spec fn shown(self, mode: SummaryMode) -> Seq<char> {
        let l = mode.label_texts();
        if self.empty() {
            "（暂无已有内容，这是第一版，请从零生成）"@
        } else {
            "<已有内容>\n"@ + l.overview@ + "："@ + text_or_none(self.overview) + "\n"@ + l.sections@
                + "（必须完整带到输出里）：\n"@ + sections_block(self.sections) + "\n"@ + l.points@
                + "："@ + listed(self.key_points) + "\n"@ + l.decisions@ + "："@ + listed(
                self.decisions,
            ) + "\n"@ + l.actions@ + "："@ + text_or_none(self.action_items) + "\n当前主题："@ + listed(
                self.topics,
            ) + "\n</已有内容>"@
        }
    }
}

/// The text of a request for an update.
pub open spec fn update_request(
    mode: SummaryMode,
    title: Seq<char>,
    known: KnownView,
    new_text: Seq<char>,
    live_text: Seq<char>,
    from_ms: int,
    to_ms: int,
    now_ms: int,
    live_window_secs: nat,
) -> Seq<char> {
    "【标题】"@ + title + "\n【当前时间】"@ + clock(now_ms)
        + "\n\n【已有内容（这是输入数据，不是输出模板；为空表示这是第一版）】\n"@ + known.shown(mode)
        + "\n\n【最近 "@ + decimal(live_window_secs) + " 秒的原文（用于生成 live 字段）】\n"@ + live_text
        + "\n\n【本次新增的转写内容（对应时间 "@ + clock(from_ms) + " → "@ + clock(to_ms)
        + "，这是已经过去的区间）】\n"@ + new_text
        + "\n\n请输出更新后的完整内容。严格按以下 JSON 模式输出（键名必须一致）：\n"@ + mode.schema_text()
}

/// The request for an update of the minutes: what is known, what was said
/// lately, and what is new.
pub fn build_incremental_messages(
    mode: SummaryMode,
    title: &str,
    overview: &str,
    sections: &Vec<SectionLine>,
    summary: &str,
    key_points: &Vec<String>,
    decisions: &Vec<String>,
    action_items: &str,
    topics: &Vec<String>,
    new_text: &str,
    live_text: &str,
    from_ms: i64,
    to_ms: i64,
    now_ms: i64,
    live_window_secs: u32,
) -> (r: Vec<ChatMessage>)
    ensures
        message_views(r@) == seq![
            MessageView { role: "system"@, content: mode.system_text() },
            MessageView {
                role: "user"@,
                content: update_request(
                    mode,
                    title@,
                    (KnownView {
                        overview: overview@,
                        sections: section_line_views(sections@),
                        summary: summary@,
                        key_points: views(key_points@),
                        decisions: views(decisions@),
                        action_items: action_items@,
                        topics: views(topics@),
                    }),
                    new_text@,
                    live_text@,
                    from_ms as int,
                    to_ms as int,
                    now_ms as int,
                    live_window_secs as nat,
                ),
            },
        ],
{
    let ghost known = KnownView {
        overview: overview@,
        sections: section_line_views(sections@),
        summary: summary@,
        key_points: views(key_points@),
        decisions: views(decisions@),
        action_items: action_items@,
        topics: views(topics@),
    };
    proof {
        assert(views(key_points@).len() == key_points@.len());
        assert(views(decisions@).len() == decisions@.len());
        assert(views(topics@).len() == topics@.len());
    }
    let empty: bool = is_blank(overview) && sections.len() == 0 && is_blank(summary)
        && key_points.len() == 0 && decisions.len() == 0 && is_blank(action_items) && topics.len()
        == 0;
    let shown = if empty {
        "（暂无已有内容，这是第一版，请从零生成）".to_owned()
    } else {
        let l = mode.labels();
        let mut s = "<已有内容>\n".to_owned();
        s.append(l.overview);
        s.append("：");
        s.append(render_text(overview));
        s.append("\n");
        s.append(l.sections);
        s.append("（必须完整带到输出里）：\n");
        s.append(render_sections(sections).as_str());
        s.append("\n");
        s.append(l.points);
        s.append("：");
        s.append(join_or_empty(key_points).as_str());
        s.append("\n");
        s.append(l.decisions);
        s.append("：");
        s.append(join_or_empty(decisions).as_str());
        s.append("\n");
        s.append(l.actions);
        s.append("：");
        s.append(render_text(action_items));
        s.append("\n当前主题：");
        s.append(join_or_empty(topics).as_str());
        s.append("\n</已有内容>");
        s
    };
    assert(shown@ == known.shown(mode));
    let mut user = "【标题】".to_owned();
    user.append(title);
    user.append("\n【当前时间】");
    user.append(format_clock(now_ms).as_str());
    user.append("\n\n【已有内容（这是输入数据，不是输出模板；为空表示这是第一版）】\n");
    user.append(shown.as_str());
    user.append("\n\n【最近 ");
    user.append(decimal_of(live_window_secs as u128).as_str());
    user.append(" 秒的原文（用于生成 live 字段）】\n");
    user.append(live_text);
    user.append("\n\n【本次新增的转写内容（对应时间 ");
    user.append(format_clock(from_ms).as_str());
    user.append(" → ");
    user.append(format_clock(to_ms).as_str());
    user.append("，这是已经过去的区间）】\n");
    user.append(new_text);
    user.append("\n\n请输出更新后的完整内容。严格按以下 JSON 模式输出（键名必须一致）：\n");
    user.append(mode.schema());
    let mut out: Vec<ChatMessage> = Vec::new();
    out.push(ChatMessage::system(mode.system_prompt()));
    out.push(ChatMessage::user(user.as_str()));
    proof {
        assert(message_views(out@).len() == 2);
        assert(message_views(out@)[0] == out@[0]@);
        assert(message_views(out@)[1] == out@[1]@);
        assert(message_views(out@) =~= seq![out@[0]@, out@[1]@]);
    }
    out
}

/// The text of a request for a report.
pub open spec fn report_request(
    title: Seq<char>,
    meta: Seq<char>,
    transcript: Seq<char>,
    max_chars: int,
) -> Seq<char> {
    "【标题】"@ + title + "\n【会议信息】"@ + meta + "\n\n【完整转写内容】\n"@ + truncated(
        trimmed(transcript),
        max_chars,
    ) + "\n\n请按系统提示的结构输出会议纪要。"@
}

/// The request for a report on a whole meeting.
pub fn build_report_messages(title: &str, meta: &str, transcript: &str, max_chars: usize) -> (r:
    Vec<ChatMessage>)
    ensures
        message_views(r@) == seq![
            MessageView { role: "system"@, content: REPORT_SYSTEM@ },
            MessageView {
                role: "user"@,
                content: report_request(title@, meta@, transcript@, max_chars as int),
            },
        ],
{
    let mut user = "【标题】".to_owned();
    user.append(title);
    user.append("\n【会议信息】");
    user.append(meta);
    user.append("\n\n【完整转写内容】\n");
    user.append(truncate_chars(trim(transcript), max_chars).as_str());
    user.append("\n\n请按系统提示的结构输出会议纪要。");
    let mut out: Vec<ChatMessage> = Vec::new();
    out.push(ChatMessage::system(REPORT_SYSTEM));
    out.push(ChatMessage::user(user.as_str()));
    proof {
        assert(message_views(out@)[0] == out@[0]@);
        assert(message_views(out@)[1] == out@[1]@);
        assert(message_views(out@) =~= seq![out@[0]@, out@[1]@]);
    }
    out
}

// ---------------------------------------------------------------------------
// Laws
// ---------------------------------------------------------------------------

proof fn lemma_end_occurs(x: Seq<char>, t: Seq<char>)
    ensures
        has_text(x + t, t),
{
    assert((x + t).subrange(x.len() as int, (x.len() + t.len()) as int) =~= t);
    assert(occurs_at(x + t, t, x.len() as int));
}

proof fn lemma_stays(x: Seq<char>, y: Seq<char>, t: Seq<char>)
    requires
        has_text(x, t),
    ensures
        has_text(x + y, t),
{
    let i = choose|i: int| occurs_at(x, t, i);
    assert((x + y).subrange(i, i + t.len()) =~= x.subrange(i, i + t.len()));
    assert(occurs_at(x + y, t, i));
}

proof fn lemma_stays_both(x: Seq<char>, y: Seq<char>, t: Seq<char>, u: Seq<char>)
    requires
        has_text(x, t),
        has_text(x, u),
    ensures
        has_text(x + y, t),
        has_text(x + y, u),
{
    lemma_stays(x, y, t);
    lemma_stays(x, y, u);
}

/// A request for an update carries the title, the recent and the new text, and
/// the form of the answer, all word for word.
pub proof fn law_request_carries_the_news(
    mode: SummaryMode,
    title: Seq<char>,
    known: KnownView,
    new_text: Seq<char>,
    live_text: Seq<char>,
    from_ms: int,
    to_ms: int,
    now_ms: int,
    live_window_secs: nat,
)
    ensures
        ({
            let r = update_request(
                mode,
                title,
                known,
                new_text,
                live_text,
                from_ms,
                to_ms,
                now_ms,
                live_window_secs,
            );
            &&& has_text(r, title)
            &&& has_text(r, live_text)
            &&& has_text(r, new_text)
            &&& mode.schema_text().is_suffix_of(r)
        }),
{
    let schema = mode.schema_text();
    let x1 = "【标题】"@ + title;
    let x2 = x1 + "\n【当前时间】"@;
    let x3 = x2 + clock(now_ms);
    let x4 = x3 + "\n\n【已有内容（这是输入数据，不是输出模板；为空表示这是第一版）】\n"@;
    let x5 = x4 + known.shown(mode);
    let x6 = x5 + "\n\n【最近 "@;
    let x7 = x6 + decimal(live_window_secs);
    let x8 = x7 + " 秒的原文（用于生成 live 字段）】\n"@;
    let x9 = x8 + live_text;
    let y1 = x9 + "\n\n【本次新增的转写内容（对应时间 "@;
    let y2 = y1 + clock(from_ms);
    let y3 = y2 + " → "@;
    let y4 = y3 + clock(to_ms);
    let y5 = y4 + "，这是已经过去的区间）】\n"@;
    let y6 = y5 + new_text;
    let y7 = y6 + "\n\n请输出更新后的完整内容。严格按以下 JSON 模式输出（键名必须一致）：\n"@;
    let r = y7 + schema;
    assert(r == update_request(
        mode,
        title,
        known,
        new_text,
        live_text,
        from_ms,
        to_ms,
        now_ms,
        live_window_secs,
    ));
    lemma_end_occurs("【标题】"@, title);
    lemma_stays(x1, "\n【当前时间】"@, title);
    lemma_stays(x2, clock(now_ms), title);
    lemma_stays(
        x3,
        "\n\n【已有内容（这是输入数据，不是输出模板；为空表示这是第一版）】\n"@,
        title,
    );
    lemma_stays(x4, known.shown(mode), title);
    lemma_stays(x5, "\n\n【最近 "@, title);
    lemma_stays(x6, decimal(live_window_secs), title);
    lemma_stays(x7, " 秒的原文（用于生成 live 字段）】\n"@, title);
    lemma_stays(x8, live_text, title);
    lemma_end_occurs(x8, live_text);
    lemma_stays_both(x9, "\n\n【本次新增的转写内容（对应时间 "@, title, live_text);
    lemma_stays_both(y1, clock(from_ms), title, live_text);
    lemma_stays_both(y2, " → "@, title, live_text);
    lemma_stays_both(y3, clock(to_ms), title, live_text);
    lemma_stays_both(y4, "，这是已经过去的区间）】\n"@, title, live_text);
    lemma_stays_both(y5, new_text, title, live_text);
    lemma_end_occurs(y5, new_text);
    lemma_stays_both(
        y6,
        "\n\n请输出更新后的完整内容。严格按以下 JSON 模式输出（键名必须一致）：\n"@,
        title,
        live_text,
    );
    lemma_stays(
        y6,
        "\n\n请输出更新后的完整内容。严格按以下 JSON 模式输出（键名必须一致）：\n"@,
        new_text,
    );
    lemma_stays_both(y7, schema, title, live_text);
    lemma_stays(y7, schema, new_text);
    assert(r.subrange(r.len() - schema.len(), r.len() as int) =~= schema);
}

/// Minutes that are still empty show nothing but a note: no part of them is
/// named, so that a model has no skeleton to copy.
pub proof fn law_empty_minutes_show_no_skeleton(known: KnownView, mode: SummaryMode)
    requires
        known.empty(),
    ensures
        known.shown(mode) == "（暂无已有内容，这是第一版，请从零生成）"@,
        !has_text(known.shown(mode), "总览："@),
{
    reveal_strlit("（暂无已有内容，这是第一版，请从零生成）");
    reveal_strlit("总览：");
    let s = known.shown(mode);
    assert forall|i: int| !#[trigger] occurs_at(s, "总览："@, i) by {
        if occurs_at(s, "总览："@, i) {
            assert(s.subrange(i, i + 3)[0] == s[i]);
            assert("总览："@[0] == '总');
            assert(s[i] == '总');
        }
    }
}

/// The transcript adds its own length to a request and nothing more.
pub proof fn law_request_length(
    mode: SummaryMode,
    title: Seq<char>,
    known: KnownView,
    new_text: Seq<char>,
    live_text: Seq<char>,
    from_ms: int,
    to_ms: int,
    now_ms: int,
    live_window_secs: nat,
)
    ensures
        update_request(
            mode,
            title,
            known,
            new_text,
            live_text,
            from_ms,
            to_ms,
            now_ms,
            live_window_secs,
        ).len() == update_request(
            mode,
            title,
            known,
            Seq::empty(),
            Seq::empty(),
            from_ms,
            to_ms,
            now_ms,
            live_window_secs,
        ).len() + new_text.len() + live_text.len(),
{
}

/// The request with `t` as the new text is `head`, `t` and `tail`.
pub open spec fn around_news(
    mode: SummaryMode,
    title: Seq<char>,
    known: KnownView,
    live_text: Seq<char>,
    from_ms: int,
    to_ms: int,
    now_ms: int,
    live_window_secs: nat,
    head: Seq<char>,
    tail: Seq<char>,
) -> bool {
    forall|t: Seq<char>|
        #[trigger] update_request(
            mode,
            title,
            known,
            t,
            live_text,
            from_ms,
            to_ms,
            now_ms,
            live_window_secs,
        ) == head + ("\n\n【本次新增的转写内容（对应时间 "@ + clock(from_ms) + " → "@ + clock(to_ms)
            + "，这是已经过去的区间）】\n"@) + t + tail
}

/// The request with `t` as the recent text is `head`, `t` and `tail`.
pub open spec fn around_recent(
    mode: SummaryMode,
    title: Seq<char>,
    known: KnownView,
    new_text: Seq<char>,
    from_ms: int,
    to_ms: int,
    now_ms: int,
    live_window_secs: nat,
    head: Seq<char>,
    tail: Seq<char>,
) -> bool {
    forall|t: Seq<char>|
        #[trigger] update_request(
            mode,
            title,
            known,
            new_text,
            t,
            from_ms,
            to_ms,
            now_ms,
            live_window_secs,
        ) == head + ("\n\n【最近 "@ + decimal(live_window_secs) + " 秒的原文（用于生成 live 字段）】\n"@) + t
            + tail
}

/// The request with `k` as the minutes so far is `head`, these minutes and `tail`.
pub open spec fn around_known(
    mode: SummaryMode,
    title: Seq<char>,
    new_text: Seq<char>,
    live_text: Seq<char>,
    from_ms: int,
    to_ms: int,
    now_ms: int,
    live_window_secs: nat,
    tail: Seq<char>,
) -> bool {
    forall|k: KnownView|
        #[trigger] update_request(
            mode,
            title,
            k,
            new_text,
            live_text,
            from_ms,
            to_ms,
            now_ms,
            live_window_secs,
        ) == ("【标题】"@ + title + "\n【当前时间】"@ + clock(now_ms)
            + "\n\n【已有内容（这是输入数据，不是输出模板；为空表示这是第一版）】\n"@) + k.shown(mode) + tail
}

/// Each thing in a request stands in its own place, below what it is called there: the
/// minutes so far first, then what was said lately, then what is new, each with its
/// times. None of them depends on another.
pub proof fn law_each_thing_in_a_request_has_its_place(
    mode: SummaryMode,
    title: Seq<char>,
    known: KnownView,
    new_text: Seq<char>,
    live_text: Seq<char>,
    from_ms: int,
    to_ms: int,
    now_ms: int,
    live_window_secs: nat,
)
    ensures
        exists|head: Seq<char>, tail: Seq<char>| #[trigger]
            around_news(
                mode,
                title,
                known,
                live_text,
                from_ms,
                to_ms,
                now_ms,
                live_window_secs,
                head,
                tail,
            ),
        exists|head: Seq<char>, tail: Seq<char>| #[trigger]
            around_recent(
                mode,
                title,
                known,
                new_text,
                from_ms,
                to_ms,
                now_ms,
                live_window_secs,
                head,
                tail,
            ),
        exists|tail: Seq<char>| #[trigger]
            around_known(
                mode,
                title,
                new_text,
                live_text,
                from_ms,
                to_ms,
                now_ms,
                live_window_secs,
                tail,
            ),
{
    let ask = "\n\n请输出更新后的完整内容。严格按以下 JSON 模式输出（键名必须一致）：\n"@;
    let schema = mode.schema_text();
    let a = "【标题】"@ + title + "\n【当前时间】"@ + clock(now_ms)
        + "\n\n【已有内容（这是输入数据，不是输出模板；为空表示这是第一版）】\n"@;
    let p1 = "\n\n【最近 "@;
    let p2 = decimal(live_window_secs);
    let p3 = " 秒的原文（用于生成 live 字段）】\n"@;
    let q1 = "\n\n【本次新增的转写内容（对应时间 "@;
    let q2 = clock(from_ms);
    let q3 = " → "@;
    let q4 = clock(to_ms);
    let q5 = "，这是已经过去的区间）】\n"@;
    let b = a + known.shown(mode) + p1 + p2 + p3 + live_text;
    assert forall|t: Seq<char>| #[trigger]
        update_request(
            mode,
            title,
            known,
            t,
            live_text,
            from_ms,
            to_ms,
            now_ms,
            live_window_secs,
        ) == b + (q1 + q2 + q3 + q4 + q5) + t + (ask + schema) by {
        lemma_grouped5(b, q1, q2, q3, q4, q5);
        lemma_grouped(b + (q1 + q2 + q3 + q4 + q5) + t, ask, schema);
    }
    assert(around_news(
        mode,
        title,
        known,
        live_text,
        from_ms,
        to_ms,
        now_ms,
        live_window_secs,
        b,
        ask + schema,
    ));
    let c = a + known.shown(mode);
    let rest = q1 + q2 + q3 + q4 + q5 + new_text + ask + schema;
    assert forall|t: Seq<char>| #[trigger]
        update_request(
            mode,
            title,
            known,
            new_text,
            t,
            from_ms,
            to_ms,
            now_ms,
            live_window_secs,
        ) == c + (p1 + p2 + p3) + t + rest by {
        lemma_grouped(c, p1, p2);
        lemma_grouped(c, p1 + p2, p3);
        lemma_grouped8(c + (p1 + p2 + p3) + t, q1, q2, q3, q4, q5, new_text, ask, schema);
    }
    assert(around_recent(
        mode,
        title,
        known,
        new_text,
        from_ms,
        to_ms,
        now_ms,
        live_window_secs,
        c,
        rest,
    ));
    let tail = p1 + p2 + p3 + live_text + rest;
    assert forall|k: KnownView| #[trigger]
        update_request(
            mode,
            title,
            k,
            new_text,
            live_text,
            from_ms,
            to_ms,
            now_ms,
            live_window_secs,
        ) == a + k.shown(mode) + tail by {
        let d = a + k.shown(mode);
        lemma_grouped8(d + p1 + p2 + p3 + live_text, q1, q2, q3, q4, q5, new_text, ask, schema);
        lemma_grouped5(d, p1, p2, p3, live_text, rest);
    }
    assert(around_known(
        mode,
        title,
        new_text,
        live_text,
        from_ms,
        to_ms,
        now_ms,
        live_window_secs,
        tail,
    ));
}

proof fn lemma_grouped(x: Seq<char>, a: Seq<char>, b: Seq<char>)
    ensures
        x + a + b == x + (a + b),
{
    assert(x + a + b =~= x + (a + b));
}

proof fn lemma_grouped5(
    x: Seq<char>,
    a: Seq<char>,
    b: Seq<char>,
    c: Seq<char>,
    d: Seq<char>,
    e: Seq<char>,
)
    ensures
        x + a + b + c + d + e == x + (a + b + c + d + e),
{
    lemma_grouped(x, a, b);
    lemma_grouped(x, a + b, c);
    lemma_grouped(x, a + b + c, d);
    lemma_grouped(x, a + b + c + d, e);
}

proof fn lemma_grouped8(
    x: Seq<char>,
    a: Seq<char>,
    b: Seq<char>,
    c: Seq<char>,
    d: Seq<char>,
    e: Seq<char>,
    f: Seq<char>,
    g: Seq<char>,
    h: Seq<char>,
)
    ensures
        x + a + b + c + d + e + f + g + h == x + (a + b + c + d + e + f + g + h),
{
    lemma_grouped5(x, a, b, c, d, e);
    lemma_grouped(x, a + b + c + d + e, f);
    lemma_grouped(x, a + b + c + d + e + f, g);
    lemma_grouped(x, a + b + c + d + e + f + g, h);
}

/// Texts as lines of a list, each line by itself.
pub open spec fn dashed(items: Seq<Seq<char>>) -> Seq<char> {
    if items.len() == 0 {
        "（暂无）"@
    } else {
        joined(Seq::new(items.len(), |i: int| "- "@ + trimmed(items[i])), "\n"@)
    }
}

/// The minutes so far are shown part by part, each under its own name, and none is
/// left out: what is known of decisions stands under decisions, and so on.
pub proof fn law_known_parts_stand_under_their_names(known: KnownView)
    requires
        !known.empty(),
    ensures
        known.shown(SummaryMode::Meeting) == "<已有内容>\n"@ + "会议总览"@ + "："@ + text_or_none(
            known.overview,
        ) + "\n"@ + "已分段纪要"@ + "（必须完整带到输出里）：\n"@ + sections_block(known.sections) + "\n"@
            + "关键结论"@ + "："@ + dashed(known.key_points) + "\n"@ + "已达成的决定"@ + "："@ + dashed(
            known.decisions,
        ) + "\n"@ + "待办事项"@ + "："@ + text_or_none(known.action_items) + "\n当前主题："@ + dashed(
            known.topics,
        ) + "\n</已有内容>"@,
        known.shown(SummaryMode::Lecture) == "<已有内容>\n"@ + "内容脉络"@ + "："@ + text_or_none(
            known.overview,
        ) + "\n"@ + "已分模块笔记"@ + "（必须完整带到输出里）：\n"@ + sections_block(known.sections) + "\n"@
            + "核心概念"@ + "："@ + dashed(known.key_points) + "\n"@ + "讲者强调的结论"@ + "："@ + dashed(
            known.decisions,
        ) + "\n"@ + "课后要做的事"@ + "："@ + text_or_none(known.action_items) + "\n当前主题："@ + dashed(
            known.topics,
        ) + "\n</已有内容>"@,
{
    lemma_dashed(known.key_points);
    lemma_dashed(known.decisions);
    lemma_dashed(known.topics);
}

proof fn lemma_dashed(items: Seq<Seq<char>>)
    ensures
        listed(items) == dashed(items),
{
    if items.len() > 0 {
        assert(items.map_values(|s: Seq<char>| "- "@ + trimmed(s)) =~= Seq::new(
            items.len(),
            |i: int| "- "@ + trimmed(items[i]),
        ));
    }
}

/// Every section that is known is shown with its title and every one of its points.
pub proof fn law_known_sections_are_shown_whole(sections: Seq<SectionLineView>, i: int, k: int)
    requires
        0 <= i < sections.len(),
        0 <= k < sections[i].points.len(),
    ensures
        has_text(sections_block(sections), "■ "@ + sections[i].title + "\n"@),
        has_text(sections_block(sections), "  - "@ + sections[i].points[k]),
{
    let s = sections[i];
    let f = |x: SectionLineView| section_block(x);
    let g = |p: Seq<char>| "  - "@ + p;
    let head = "■ "@ + s.title + "\n"@;
    let points = s.points.map_values(g);
    lemma_joined_holds(points, "\n"@, k);
    lemma_joined_holds(sections.map_values(f), "\n"@, i);
    let body = joined(points, "\n"@);
    let e = Seq::<char>::empty();
    lemma_text_within(e, head, body);
    assert(e + head + body =~= section_block(s));
    lemma_text_within_part(head, body, e, points[k]);
    assert(head + body + e =~= section_block(s));
    let whole = sections_block(sections);
    let at = choose|at: int| occurs_at(whole, section_block(s), at);
    let before = whole.take(at);
    let after = whole.skip(at + section_block(s).len());
    assert(before + section_block(s) + after =~= whole);
    lemma_text_within_part(before, section_block(s), after, head);
    lemma_text_within_part(before, section_block(s), after, points[k]);
}

/// The request for a report carries the whole transcript, as far as the limit allows,
/// with the title and the facts of the meeting.
pub proof fn law_report_request_carries_the_transcript(
    title: Seq<char>,
    meta: Seq<char>,
    transcript: Seq<char>,
    max_chars: int,
)
    requires
        0 <= max_chars,
    ensures
        trimmed(transcript).len() <= max_chars ==> report_request(title, meta, transcript, max_chars)
            == "【标题】"@ + title + "\n【会议信息】"@ + meta + "\n\n【完整转写内容】\n"@ + trimmed(transcript)
            + "\n\n请按系统提示的结构输出会议纪要。"@,
        trimmed(transcript).len() > max_chars ==> report_request(title, meta, transcript, max_chars)
            == "【标题】"@ + title + "\n【会议信息】"@ + meta + "\n\n【完整转写内容】\n"@ + trimmed(
            transcript,
        ).take(max_chars).push('…') + "\n\n请按系统提示的结构输出会议纪要。"@,
{
}

/// Lectures and meetings are asked for in their own way, and never the other's.
pub proof fn law_modes_keep_their_own_words(raw: Seq<char>)
    ensures
        ascii_lowered(trimmed(raw)) == "lecture"@ ==> mode_of(raw) == SummaryMode::Lecture,
        ascii_lowered(trimmed(raw)) == "meeting"@ ==> mode_of(raw) == SummaryMode::Meeting,
        SummaryMode::Lecture.schema_text() == SUMMARY_SCHEMA_LECTURE@,
        SummaryMode::Meeting.schema_text() == SUMMARY_SCHEMA@,
        SummaryMode::Lecture.system_text() == SUMMARY_SYSTEM_LECTURE@,
        SummaryMode::Meeting.system_text() == SUMMARY_SYSTEM_MEETING@,
{
    reveal_strlit("lecture");
    reveal_strlit("meeting");
    reveal_strlit("talk");
    reveal_strlit("course");
    reveal_strlit("讲座");
    reveal_strlit("课程");
    assert("meeting"@.len() == 7 && "lecture"@.len() == 7 && "talk"@.len() == 4);
    assert("course"@.len() == 6 && "讲座"@.len() == 2 && "课程"@.len() == 2);
    assert("meeting"@[0] == 'm' && "lecture"@[0] == 'l');
}

/// What [`build_incremental_messages`] sends: what is new, what was said lately, and the
/// minutes so far, each in its place, with the decisions among the decisions.
pub proof fn law_update_messages_hold_everything(
    mode: SummaryMode,
    title: &str,
    overview: &str,
    sections: &Vec<SectionLine>,
    summary: &str,
    key_points: &Vec<String>,
    decisions: &Vec<String>,
    action_items: &str,
    topics: &Vec<String>,
    new_text: &str,
    live_text: &str,
    from_ms: i64,
    to_ms: i64,
    now_ms: i64,
    live_window_secs: u32,
    r: Vec<ChatMessage>,
)
    requires
        call_ensures(
            build_incremental_messages,
            (
                mode,
                title,
                overview,
                sections,
                summary,
                key_points,
                decisions,
                action_items,
                topics,
                new_text,
                live_text,
                from_ms,
                to_ms,
                now_ms,
                live_window_secs,
            ),
            r,
        ),
    ensures
        r@.len() == 2,
        r@[0].role@ == "system"@ && r@[0].content@ == mode.system_text(),
        r@[1].role@ == "user"@,
        ({
            let known = KnownView {
                overview: overview@,
                sections: section_line_views(sections@),
                summary: summary@,
                key_points: views(key_points@),
                decisions: views(decisions@),
                action_items: action_items@,
                topics: views(topics@),
            };
            exists|head: Seq<char>, tail: Seq<char>| #[trigger]
                around_news(
                    mode,
                    title@,
                    known,
                    live_text@,
                    from_ms as int,
                    to_ms as int,
                    now_ms as int,
                    live_window_secs as nat,
                    head,
                    tail,
                ) && r@[1].content@ == head + ("\n\n【本次新增的转写内容（对应时间 "@ + clock(
                    from_ms as int,
                ) + " → "@ + clock(to_ms as int) + "，这是已经过去的区间）】\n"@) + new_text@ + tail
        }),
        has_text(r@[1].content@, live_text@),
        has_text(r@[1].content@, title@),
{
    let known = KnownView {
        overview: overview@,
        sections: section_line_views(sections@),
        summary: summary@,
        key_points: views(key_points@),
        decisions: views(decisions@),
        action_items: action_items@,
        topics: views(topics@),
    };
    assert(message_views(r@).len() == r@.len());
    assert(message_views(r@)[0] == r@[0]@);
    assert(message_views(r@)[1] == r@[1]@);
    law_each_thing_in_a_request_has_its_place(
        mode,
        title@,
        known,
        new_text@,
        live_text@,
        from_ms as int,
        to_ms as int,
        now_ms as int,
        live_window_secs as nat,
    );
    law_request_carries_the_news(
        mode,
        title@,
        known,
        new_text@,
        live_text@,
        from_ms as int,
        to_ms as int,
        now_ms as int,
        live_window_secs as nat,
    );
    let (head, tail) = choose|head: Seq<char>, tail: Seq<char>| #[trigger]
        around_news(
            mode,
            title@,
            known,
            live_text@,
            from_ms as int,
            to_ms as int,
            now_ms as int,
            live_window_secs as nat,
            head,
            tail,
        );
    assert(r@[1].content@ == update_request(
        mode,
        title@,
        known,
        new_text@,
        live_text@,
        from_ms as int,
        to_ms as int,
        now_ms as int,
        live_window_secs as nat,
    ));
}

} // verus!
