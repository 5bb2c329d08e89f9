//! The rolling minutes.
//!
//! Each reply of the model is a patch that is merged into the state of the
//! minutes. The state only ever gains: a reply that leaves something out never
//! wipes what is already there.

use vstd::prelude::*;
use vstd::string::*;
use crate::ai::client::TokenUsage;
use crate::ai::client::saturated;
use crate::ai::client::saturating_sum;
use crate::ai::patch::patch_in;
use crate::ai::patch::read_patch;
use crate::error::AppError;
use crate::error::AppResult;
use crate::error::ErrorView;
use crate::json::Json;
use crate::json::field;
use crate::json::get;
use crate::json::json_of;
use crate::json::keys;
use crate::json::parse;
use crate::json::parsed;
use crate::text::ascii_digit;
use crate::text::copy_opt;
use crate::text::copy_texts;
use crate::text::first_index;
use crate::text::from_chars;
use crate::text::has_text;
use crate::text::index_from;
use crate::text::is_ascii_digit;
use crate::text::join;
use crate::text::joined;
use crate::text::law_joined_words_are_read_back;
use crate::text::law_only_outer_space_is_trimmed;
use crate::text::law_words_hold_all_but_space;
use crate::text::lemma_joined_holds;
use crate::text::lemma_text_within;
use crate::text::lemma_text_within_part;
use crate::text::lines;
use crate::text::lines_of;
use crate::text::occurs_at;
use crate::text::opt_view;
use crate::text::same;
use crate::text::starts_with;
use crate::text::strip_left;
use crate::text::strip_left_by;
use crate::text::space;
use crate::text::to_chars;
use crate::text::trim_start;
use crate::text::trim;
use crate::text::trimmed;
use crate::text::views;
use crate::text::words;
use crate::text::words_of;
use crate::util::now_ms;
use crate::util::truncate_chars;
use crate::util::truncated;

verus! {

/// The most sections that minutes have.
pub const MAX_SECTIONS: usize = 40;

/// The most points of one section.
pub const MAX_SECTION_POINTS: usize = 12;

/// The most characters of the summary.
pub const MAX_SUMMARY_CHARS: usize = 4_000;

/// The most items of a list.
pub const MAX_LIST_ITEMS: usize = 20;

/// The most topics.
pub const MAX_TOPICS: usize = 8;

/// Title of a section that was given none.
pub const UNTITLED: &'static str = "未命名段落";

// ---------------------------------------------------------------------------
// Data
// ---------------------------------------------------------------------------

/// Something to be done.
#[derive(Debug)]
pub struct ActionItem {
    pub text: String,
    pub owner: String,
    pub due: String,
}

#[verifier::ext_equal]
pub ghost struct ItemView {
    pub text: Seq<char>,
    pub owner: Seq<char>,
    pub due: Seq<char>,
}

impl View for ActionItem {
    type V = ItemView;

    open spec fn view(&self) -> ItemView {
        ItemView { text: self.text@, owner: self.owner@, due: self.due@ }
    }
}

/// Something to be done, as a model may write it: with or without details.
#[derive(Debug)]
pub enum ActionItemRaw {
    Text(String),
    Full(ActionItem),
}

/// The item that a raw one stands for.
pub open spec fn item_of(raw: ActionItemRaw) -> ItemView {
    match raw {
        ActionItemRaw::Text(t) => ItemView {
            text: trimmed(t@),
            owner: Seq::empty(),
            due: Seq::empty(),
        },
        ActionItemRaw::Full(a) => ItemView {
            text: trimmed(a.text@),
            owner: trimmed(a.owner@),
            due: trimmed(a.due@),
        },
    }
}

impl ActionItem {
    pub fn new(text: &str) -> (r: ActionItem)
        ensures
            r@ == (ItemView { text: text@, owner: Seq::empty(), due: Seq::empty() }),
    {
        ActionItem { text: text.to_owned(), owner: String::new(), due: String::new() }
    }

    /// A copy of the item.
    pub fn duplicate(&self) -> (r: ActionItem)
        ensures
            r@ == self@,
    {
        ActionItem { text: self.text.clone(), owner: self.owner.clone(), due: self.due.clone() }
    }
}

impl ActionItemRaw {
    /// The item that is meant, with surrounding white space removed.
    pub fn into_item(self) -> (r: ActionItem)
        ensures
            r@ == item_of(self),
    {
        match self {
            ActionItemRaw::Text(t) => ActionItem::new(trim(t.as_str())),
            ActionItemRaw::Full(a) => ActionItem {
                text: trim(a.text.as_str()).to_owned(),
                owner: trim(a.owner.as_str()).to_owned(),
                due: trim(a.due.as_str()).to_owned(),
            },
        }
    }
}

/// A section of the minutes: a subject and what was said about it.
#[derive(Debug)]
pub struct SummarySection {
    pub title: String,
    pub points: Vec<String>,
    /// How far into the meeting the section reaches.
    pub until_ms: i64,
}

#[verifier::ext_equal]
pub ghost struct SectionView {
    pub title: Seq<char>,
    pub points: Seq<Seq<char>>,
    pub until: int,
}

impl View for SummarySection {
    type V = SectionView;

    open spec fn view(&self) -> SectionView {
        SectionView {
            title: self.title@,
            points: views(self.points@),
            until: self.until_ms as int,
        }
    }
}

pub open spec fn section_views(v: Seq<SummarySection>) -> Seq<SectionView> {
    v.map_values(|s: SummarySection| s@)
}

pub open spec fn item_views(v: Seq<ActionItem>) -> Seq<ItemView> {
    v.map_values(|a: ActionItem| a@)
}

/// The state of the minutes.
#[derive(Debug)]
pub struct SummaryState {
    /// What has just been said.
    pub live: String,
    pub overview: String,
    /// The whole minutes as a list.
    pub summary: String,
    /// The whole minutes by subject.
    pub sections: Vec<SummarySection>,
    pub key_points: Vec<String>,
    pub decisions: Vec<String>,
    pub action_items: Vec<ActionItem>,
    pub topics: Vec<String>,
    pub updated_at: i64,
    /// Up to where the transcript is in the minutes.
    pub covered_until_ms: i64,
    pub revision: u32,
    pub model: Option<String>,
    pub error: Option<String>,
    pub prompt_tokens: u32,
    pub completion_tokens: u32,
    pub calls: u32,
}

#[verifier::ext_equal]
pub ghost struct SummaryView {
    pub live: Seq<char>,
    pub overview: Seq<char>,
    pub summary: Seq<char>,
    pub sections: Seq<SectionView>,
    pub key_points: Seq<Seq<char>>,
    pub decisions: Seq<Seq<char>>,
    pub action_items: Seq<ItemView>,
    pub topics: Seq<Seq<char>>,
    pub updated_at: i64,
    pub covered_until: i64,
    pub revision: u32,
    pub model: Option<Seq<char>>,
    pub error: Option<Seq<char>>,
    pub prompt_tokens: u32,
    pub completion_tokens: u32,
    pub calls: u32,
}

impl View for SummaryState {
    type V = SummaryView;

    open spec fn view(&self) -> SummaryView {
        SummaryView {
            live: self.live@,
            overview: self.overview@,
            summary: self.summary@,
            sections: section_views(self.sections@),
            key_points: views(self.key_points@),
            decisions: views(self.decisions@),
            action_items: item_views(self.action_items@),
            topics: views(self.topics@),
            updated_at: self.updated_at,
            covered_until: self.covered_until_ms,
            revision: self.revision,
            model: opt_view(self.model),
            error: opt_view(self.error),
            prompt_tokens: self.prompt_tokens,
            completion_tokens: self.completion_tokens,
            calls: self.calls,
        }
    }
}

/// No minutes yet.
pub open spec fn no_summary() -> SummaryView {
    SummaryView {
        live: Seq::empty(),
        overview: Seq::empty(),
        summary: Seq::empty(),
        sections: Seq::empty(),
        key_points: Seq::empty(),
        decisions: Seq::empty(),
        action_items: Seq::empty(),
        topics: Seq::empty(),
        updated_at: 0,
        covered_until: 0,
        revision: 0,
        model: None,
        error: None,
        prompt_tokens: 0,
        completion_tokens: 0,
        calls: 0,
    }
}

impl Default for SummaryState {
    fn default() -> (r: SummaryState)
        ensures
            r@ == no_summary(),
    {
        let r = SummaryState {
            live: String::new(),
            overview: String::new(),
            summary: String::new(),
            sections: Vec::new(),
            key_points: Vec::new(),
            decisions: Vec::new(),
            action_items: Vec::new(),
            topics: Vec::new(),
            updated_at: 0,
            covered_until_ms: 0,
            revision: 0,
            model: None,
            error: None,
            prompt_tokens: 0,
            completion_tokens: 0,
            calls: 0,
        };
        proof {
            assert(r@ =~= no_summary());
        }
        r
    }
}

/// A patch as a model gives it; what is missing stays as it is.
#[derive(Debug)]
pub struct SummaryPatch {
    pub live: Option<String>,
    pub overview: Option<String>,
    pub summary: Option<String>,
    /// All sections, the earlier ones included.
    pub sections: Option<Vec<SectionRaw>>,
    pub key_points: Option<Vec<String>>,
    pub decisions: Option<Vec<String>>,
    pub action_items: Option<Vec<ActionItemRaw>>,
    pub topics: Option<Vec<String>>,
}

impl Default for SummaryPatch {
    fn default() -> (r: SummaryPatch)
        ensures
            r.live is None,
            r.overview is None,
            r.summary is None,
            r.sections is None,
            r.key_points is None,
            r.decisions is None,
            r.action_items is None,
            r.topics is None,
    {
        SummaryPatch {
            live: None,
            overview: None,
            summary: None,
            sections: None,
            key_points: None,
            decisions: None,
            action_items: None,
            topics: None,
        }
    }
}

/// A section as a model gives it.
#[derive(Debug)]
pub struct SectionRaw {
    pub title: Option<String>,
    pub points: Option<Vec<String>>,
    pub until_ms: Option<i64>,
}

// ---------------------------------------------------------------------------
// Cleaning of texts and lists
// ---------------------------------------------------------------------------

/// White space collapsed to single blanks.
pub open spec fn collapsed(s: Seq<char>) -> Seq<char> {
    joined(words_of(s), " "@)
}

pub(crate) fn collapse_ws(s: &str) -> (r: String)
    ensures
        r@ == collapsed(s@),
{
    join(&words(s), " ")
}

/// The marks that begin an item of a list.
pub open spec fn bullet(c: char) -> bool {
    c == '-' || c == '*' || c == '•' || c == '·'
}

fn is_bullet(c: char) -> (r: bool)
    ensures
        r == bullet(c),
{
    c == '-' || c == '*' || c == '•' || c == '·'
}

/// What may follow the number of an item.
pub open spec fn after_number(c: char) -> bool {
    c == '.' || c == ')' || c == '、' || c == ' '
}

fn is_after_number(c: char) -> (r: bool)
    ensures
        r == after_number(c),
{
    c == '.' || c == ')' || c == '、' || c == ' '
}

/// An item of a list without its mark or number.
pub open spec fn plain_item(s: Seq<char>) -> Seq<char> {
    collapsed(
        trimmed(
            strip_left(
                strip_left(
                    strip_left(trimmed(s), |c: char| bullet(c)),
                    |c: char| ascii_digit(c),
                ),
                |c: char| after_number(c),
            ),
        ),
    )
}

fn normalize_item(s: &str) -> (r: String)
    ensures
        r@ == plain_item(s@),
{
    let t = trim(s);
    let t = strip_left_by(t, is_bullet, Ghost(|c: char| bullet(c)));
    let t = strip_left_by(t, is_ascii_digit, Ghost(|c: char| ascii_digit(c)));
    let t = strip_left_by(t, is_after_number, Ghost(|c: char| after_number(c)));
    collapse_ws(trim(t))
}

/// The plain items of a list, each once, without empty ones.
pub open spec fn distinct_items(items: Seq<Seq<char>>) -> Seq<Seq<char>>
    decreases items.len(),
{
    if items.len() == 0 {
        items
    } else {
        let before = distinct_items(items.drop_last());
        let s = plain_item(items.last());
        if s.len() == 0 || before.contains(s) {
            before
        } else {
            before.push(s)
        }
    }
}

/// At most `limit` items.
pub open spec fn limited<T>(items: Seq<T>, limit: int) -> Seq<T> {
    if items.len() <= limit {
        items
    } else {
        items.take(limit)
    }
}

/// The first `limit` distinct plain items of a list.
pub open spec fn cleaned_list(items: Seq<Seq<char>>, limit: int) -> Seq<Seq<char>> {
    limited(distinct_items(items), limit)
}

proof fn lemma_distinct_prefix(items: Seq<Seq<char>>, k: int)
    requires
        0 <= k <= items.len(),
    ensures
        distinct_items(items.take(k)).len() <= distinct_items(items).len(),
        distinct_items(items.take(k)) == distinct_items(items).take(
            distinct_items(items.take(k)).len() as int,
        ),
    decreases items.len(),
{
    if k == items.len() {
        assert(items.take(k) =~= items);
        assert(distinct_items(items) =~= distinct_items(items).take(
            distinct_items(items).len() as int,
        ));
    } else {
        lemma_distinct_prefix(items.drop_last(), k);
        assert(items.drop_last().take(k) =~= items.take(k));
        let short = distinct_items(items.take(k));
        let before = distinct_items(items.drop_last());
        assert(distinct_items(items).take(short.len() as int) =~= before.take(short.len() as int));
    }
}

fn holds_text(v: &Vec<String>, s: &str) -> (r: bool)
    ensures
        r == views(v@).contains(s@),
{
    let n: usize = v.len();
    let mut i: usize = 0;
    while i < n
        invariant
            i <= n == v@.len(),
            forall|k: int| 0 <= k < i ==> (#[trigger] views(v@)[k]) != s@,
        decreases n - i,
    {
        if same(v[i].as_str(), s) {
            proof {
                assert(views(v@)[i as int] == s@);
            }
            return true;
        }
        i += 1;
    }
    false
}

/// The first `limit` distinct items of a list, freed of marks and numbers.
pub fn clean_list(items: &Vec<String>, limit: usize) -> (r: Vec<String>)
    requires
        limit >= 1,
    ensures
        views(r@) == cleaned_list(views(items@), limit as int),
{
    let ghost all = views(items@);
    let n: usize = items.len();
    let mut out: Vec<String> = Vec::new();
    let mut i: usize = 0;
    proof {
        assert(views(out@) =~= distinct_items(all.take(0)));
    }
    while i < n && out.len() < limit
        invariant
            i <= n == items@.len(),
            all == views(items@),
            out@.len() <= limit,
            views(out@) == distinct_items(all.take(i as int)),
        ensures
            i <= n,
            out@.len() <= limit,
            i < n ==> out@.len() == limit,
            views(out@) == distinct_items(all.take(i as int)),
        decreases n - i,
    {
        proof {
            assert(all.take(i + 1).drop_last() =~= all.take(i as int));
        }
        let s = normalize_item(items[i].as_str());
        let ghost before = views(out@);
        let ghost sv = s@;
        if s.as_str().unicode_len() > 0 && !holds_text(&out, s.as_str()) {
            out.push(s);
            proof {
                assert(views(out@) =~= before.push(sv));
            }
        }
        i += 1;
    }
    proof {
        lemma_distinct_prefix(all, i as int);
        assert(views(out@).len() == out@.len());
        if i == n {
            assert(all.take(n as int) =~= all);
        }
        assert(views(out@) =~= cleaned_list(all, limit as int));
    }
    out
}

/// A line of minutes as an item of a list; headings and quotations stay.
pub open spec fn listed_line(line: Seq<char>) -> Option<Seq<char>> {
    let t = trimmed(line);
    let stripped = trimmed(strip_left(t, |c: char| bullet(c)));
    if t.len() == 0 || stripped.len() == 0 {
        None
    } else if t[0] == '#' || t[0] == '>' {
        Some(t)
    } else {
        Some("- "@ + stripped)
    }
}

/// The lines of minutes as items of a list, without empty ones.
pub open spec fn listed_lines(lines: Seq<Seq<char>>) -> Seq<Seq<char>>
    decreases lines.len(),
{
    if lines.len() == 0 {
        lines
    } else {
        match listed_line(lines.last()) {
            Some(l) => listed_lines(lines.drop_last()).push(l),
            None => listed_lines(lines.drop_last()),
        }
    }
}

fn list_line(line: &str) -> (r: Option<String>)
    ensures
        opt_view(r) == listed_line(line@),
{
    let t = trim(line);
    if t.unicode_len() == 0 {
        return None;
    }
    let stripped = trim(strip_left_by(t, is_bullet, Ghost(|c: char| bullet(c))));
    if stripped.unicode_len() == 0 {
        return None;
    }
    let first = t.get_char(0);
    if first == '#' || first == '>' {
        Some(t.to_owned())
    } else {
        let mut s = "- ".to_owned();
        s.append(stripped);
        Some(s)
    }
}

/// Minutes made into a list.
pub open spec fn markdown_list(s: Seq<char>) -> Seq<char> {
    joined(listed_lines(lines_of(s)), "\n"@)
}

pub(crate) fn normalize_markdown_list(s: &str) -> (r: String)
    ensures
        r@ == markdown_list(s@),
{
    let all = lines(s);
    let ghost av = views(all@);
    let n: usize = all.len();
    let mut out: Vec<String> = Vec::new();
    let mut i: usize = 0;
    proof {
        assert(views(out@) =~= listed_lines(av.take(0)));
    }
    while i < n
        invariant
            i <= n == all@.len(),
            av == views(all@),
            views(out@) == listed_lines(av.take(i as int)),
        decreases n - i,
    {
        proof {
            assert(av.take(i + 1).drop_last() =~= av.take(i as int));
        }
        let ghost before = views(out@);
        if let Some(l) = list_line(all[i].as_str()) {
            let ghost lv = l@;
            out.push(l);
            proof {
                assert(views(out@) =~= before.push(lv));
            }
        }
        i += 1;
    }
    proof {
        assert(av.take(n as int) =~= av);
    }
    join(&out, "\n")
}

// ---------------------------------------------------------------------------
// Sections
// ---------------------------------------------------------------------------

/// The points of a section as lines.
pub open spec fn point_lines(points: Seq<Seq<char>>) -> Seq<Seq<char>> {
    points.map_values(|p: Seq<char>| "- "@ + p)
}

/// The lines of some sections; each begins with its title if `titled`.
pub open spec fn section_lines(sections: Seq<SectionView>, titled: bool) -> Seq<Seq<char>>
    decreases sections.len(),
{
    if sections.len() == 0 {
        Seq::empty()
    } else {
        let s = sections.last();
        section_lines(sections.drop_last(), titled) + if titled {
            seq!["**"@ + s.title + "**"@]
        } else {
            Seq::empty()
        } + point_lines(s.points)
    }
}

/// The sections as a list; titles only where there are several.
pub open spec fn sections_list(sections: Seq<SectionView>) -> Seq<char> {
    joined(section_lines(sections, sections.len() > 1), "\n"@)
}

pub fn sections_to_markdown(sections: &Vec<SummarySection>) -> (r: String)
    ensures
        r@ == sections_list(section_views(sections@)),
{
    let ghost sv = section_views(sections@);
    let n: usize = sections.len();
    let titled: bool = n > 1;
    let mut out: Vec<String> = Vec::new();
    let mut i: usize = 0;
    proof {
        assert(views(out@) =~= section_lines(sv.take(0), titled));
    }
    while i < n
        invariant
            i <= n == sections@.len(),
            sv == section_views(sections@),
            views(out@) == section_lines(sv.take(i as int), titled),
        decreases n - i,
    {
        proof {
            assert(sv.take(i + 1).drop_last() =~= sv.take(i as int));
        }
        let ghost before = views(out@);
        let ghost head = if titled {
            seq!["**"@ + sv[i as int].title + "**"@]
        } else {
            Seq::empty()
        };
        if titled {
            let mut t = "**".to_owned();
            t.append(sections[i].title.as_str());
            t.append("**");
            out.push(t);
        }
        proof {
            assert(views(out@) =~= before + head);
        }
        let points = &sections[i].points;
        let m: usize = points.len();
        let mut k: usize = 0;
        while k < m
            invariant
                k <= m == points@.len(),
                views(out@) == before + head + point_lines(views(points@)).take(k as int),
            decreases m - k,
        {
            let mut p = "- ".to_owned();
            p.append(points[k].as_str());
            let ghost so_far = views(out@);
            let ghost pv = p@;
            out.push(p);
            proof {
                let all = point_lines(views(points@));
                assert(all[k as int] == pv);
                assert(views(out@) =~= so_far.push(pv));
                assert(all.take(k + 1) =~= all.take(k as int).push(pv));
                assert(views(out@) =~= before + head + all.take(k + 1));
            }
            k += 1;
        }
        proof {
            assert(point_lines(views(points@)).take(m as int) =~= point_lines(views(points@)));
        }
        i += 1;
    }
    proof {
        assert(sv.take(n as int) =~= sv);
    }
    join(&out, "\n")
}

/// Model of [`SectionRaw`].
#[verifier::ext_equal]
pub ghost struct RawSectionView {
    pub title: Seq<char>,
    pub points: Seq<Seq<char>>,
    pub until: int,
}

impl View for SectionRaw {
    type V = RawSectionView;

    open spec fn view(&self) -> RawSectionView {
        RawSectionView {
            title: match self.title {
                Some(t) => t@,
                None => Seq::empty(),
            },
            points: match self.points {
                Some(p) => views(p@),
                None => Seq::empty(),
            },
            until: match self.until_ms {
                Some(u) => u as int,
                None => 0,
            },
        }
    }
}

pub open spec fn raw_views(v: Seq<SectionRaw>) -> Seq<RawSectionView> {
    v.map_values(|s: SectionRaw| s@)
}

/// The title that a section gets.
pub open spec fn section_title(raw: RawSectionView) -> Seq<char> {
    let t = collapsed(raw.title);
    if t.len() == 0 {
        UNTITLED@
    } else {
        truncated(t, 60)
    }
}

/// The sections that a model's list stands for: empty ones are left out, and
/// neighbours with the same title are one section.
pub open spec fn merged_sections(raw: Seq<RawSectionView>) -> Seq<SectionView>
    decreases raw.len(),
{
    if raw.len() == 0 {
        Seq::empty()
    } else {
        let before = merged_sections(raw.drop_last());
        let r = raw.last();
        let points = cleaned_list(r.points, MAX_SECTION_POINTS as int);
        let title = section_title(r);
        if collapsed(r.title).len() == 0 && points.len() == 0 {
            before
        } else if before.len() > 0 && before.last().title == title {
            before.drop_last().push(
                SectionView {
                    points: limited(before.last().points + points, MAX_SECTION_POINTS as int),
                    ..before.last()
                },
            )
        } else {
            before.push(SectionView { title, points, until: r.until })
        }
    }
}

fn merge_sections(raw: &Vec<SectionRaw>) -> (r: Vec<SummarySection>)
    ensures
        section_views(r@) == merged_sections(raw_views(raw@)),
{
    let ghost rv = raw_views(raw@);
    let n: usize = raw.len();
    let mut out: Vec<SummarySection> = Vec::new();
    let mut i: usize = 0;
    proof {
        assert(section_views(out@) =~= merged_sections(rv.take(0)));
    }
    while i < n
        invariant
            i <= n == raw@.len(),
            rv == raw_views(raw@),
            section_views(out@) == merged_sections(rv.take(i as int)),
        decreases n - i,
    {
        proof {
            assert(rv.take(i + 1).drop_last() =~= rv.take(i as int));
        }
        let ghost before = section_views(out@);
        let s = &raw[i];
        let title = match &s.title {
            Some(t) => collapse_ws(t.as_str()),
            None => {
                proof {
                    lemma_collapsed_empty();
                }
                String::new()
            },
        };
        let points = match &s.points {
            Some(p) => clean_list(p, MAX_SECTION_POINTS),
            None => {
                let none: Vec<String> = Vec::new();
                proof {
                    assert(views(none@) =~= cleaned_list(
                        Seq::<Seq<char>>::empty(),
                        MAX_SECTION_POINTS as int,
                    ));
                }
                none
            },
        };
        if title.as_str().unicode_len() > 0 || points.len() > 0 {
            let title = if title.as_str().unicode_len() == 0 {
                UNTITLED.to_owned()
            } else {
                truncate_chars(title.as_str(), 60)
            };
            let until: i64 = match s.until_ms {
                Some(u) => u,
                None => 0,
            };
            let m: usize = out.len();
            let ghost pv = views(points@);
            let ghost tv = title@;
            proof {
                assert(before.len() == out@.len());
                if m > 0 {
                    assert(before.last() == out@[m - 1]@);
                }
            }
            if m > 0 && same(out[m - 1].title.as_str(), title.as_str()) {
                let last = out.pop();
                if let Some(sec) = last {
                    proof {
                        assert(section_views(out@) =~= before.drop_last());
                    }
                    let all = append_limited(sec.points, points, MAX_SECTION_POINTS);
                    let whole = SummarySection {
                        title: sec.title,
                        points: all,
                        until_ms: sec.until_ms,
                    };
                    let ghost wv = whole@;
                    out.push(whole);
                    proof {
                        assert(section_views(out@) =~= before.drop_last().push(wv));
                        assert(wv =~= (SectionView {
                            points: limited(
                                before.last().points + pv,
                                MAX_SECTION_POINTS as int,
                            ),
                            ..before.last()
                        }));
                    }
                }
            } else {
                let whole = SummarySection { title, points, until_ms: until };
                let ghost wv = whole@;
                out.push(whole);
                proof {
                    assert(section_views(out@) =~= before.push(wv));
                }
            }
        }
        i += 1;
    }
    proof {
        assert(rv.take(n as int) =~= rv);
    }
    out
}

proof fn lemma_collapsed_empty()
    ensures
        collapsed(Seq::empty()) == Seq::<char>::empty(),
{
    let p = |c: char| crate::text::space(c);
    let parts = crate::text::pieces(Seq::empty(), p);
    assert(parts =~= seq![Seq::<char>::empty()]);
    assert(parts.drop_last() =~= Seq::empty());
    reveal_with_fuel(crate::text::without_empty, 2);
    assert(words_of(Seq::empty()) =~= Seq::empty());
}

/// `a` followed by `b`, at most `limit` texts.
fn append_limited(a: Vec<String>, b: Vec<String>, limit: usize) -> (r: Vec<String>)
    ensures
        views(r@) == limited(views(a@) + views(b@), limit as int),
{
    let ghost av = views(a@);
    let ghost bv = views(b@);
    let mut out = a;
    let mut rest = b;
    out.append(&mut rest);
    proof {
        assert(views(out@) =~= av + bv);
    }
    let ghost whole = views(out@);
    let n: usize = out.len();
    if n > limit {
        out.truncate(limit);
        proof {
            assert(views(out@) =~= whole.take(limit as int));
        }
    }
    out
}

// ---------------------------------------------------------------------------
// Comparing
// ---------------------------------------------------------------------------

fn same_texts(a: &Vec<String>, b: &Vec<String>) -> (r: bool)
    ensures
        r == (views(a@) == views(b@)),
{
    let n: usize = a.len();
    proof {
        assert(views(a@).len() == a@.len());
        assert(views(b@).len() == b@.len());
    }
    if n != b.len() {
        return false;
    }
    let mut i: usize = 0;
    while i < n
        invariant
            i <= n == a@.len() == b@.len(),
            forall|k: int| 0 <= k < i ==> #[trigger] views(a@)[k] == views(b@)[k],
        decreases n - i,
    {
        if !same(a[i].as_str(), b[i].as_str()) {
            proof {
                assert(views(a@)[i as int] != views(b@)[i as int]);
            }
            return false;
        }
        proof {
            assert(views(a@)[i as int] == views(b@)[i as int]);
        }
        i += 1;
    }
    proof {
        assert(views(a@) =~= views(b@));
    }
    true
}

fn same_sections(a: &Vec<SummarySection>, b: &Vec<SummarySection>) -> (r: bool)
    ensures
        r == (section_views(a@) == section_views(b@)),
{
    let n: usize = a.len();
    proof {
        assert(section_views(a@).len() == a@.len());
        assert(section_views(b@).len() == b@.len());
    }
    if n != b.len() {
        return false;
    }
    let mut i: usize = 0;
    while i < n
        invariant
            i <= n == a@.len() == b@.len(),
            forall|k: int| 0 <= k < i ==> #[trigger] section_views(a@)[k] == section_views(b@)[k],
        decreases n - i,
    {
        let x = &a[i];
        let y = &b[i];
        let eq: bool = same(x.title.as_str(), y.title.as_str()) && same_texts(&x.points, &y.points)
            && x.until_ms == y.until_ms;
        proof {
            assert(section_views(a@)[i as int] == x@);
            assert(section_views(b@)[i as int] == y@);
        }
        if !eq {
            return false;
        }
        proof {
            assert(x@ =~= y@);
        }
        i += 1;
    }
    proof {
        assert(section_views(a@) =~= section_views(b@));
    }
    true
}

fn same_items(a: &Vec<ActionItem>, b: &Vec<ActionItem>) -> (r: bool)
    ensures
        r == (item_views(a@) == item_views(b@)),
{
    let n: usize = a.len();
    proof {
        assert(item_views(a@).len() == a@.len());
        assert(item_views(b@).len() == b@.len());
    }
    if n != b.len() {
        return false;
    }
    let mut i: usize = 0;
    while i < n
        invariant
            i <= n == a@.len() == b@.len(),
            forall|k: int| 0 <= k < i ==> #[trigger] item_views(a@)[k] == item_views(b@)[k],
        decreases n - i,
    {
        let x = &a[i];
        let y = &b[i];
        let eq: bool = same(x.text.as_str(), y.text.as_str()) && same(
            x.owner.as_str(),
            y.owner.as_str(),
        ) && same(x.due.as_str(), y.due.as_str());
        proof {
            assert(item_views(a@)[i as int] == x@);
            assert(item_views(b@)[i as int] == y@);
        }
        if !eq {
            return false;
        }
        proof {
            assert(x@ =~= y@);
        }
        i += 1;
    }
    proof {
        assert(item_views(a@) =~= item_views(b@));
    }
    true
}

// ---------------------------------------------------------------------------
// Merging a patch
// ---------------------------------------------------------------------------

/// Model of [`SummaryPatch`].
pub ghost struct PatchView {
    pub live: Option<Seq<char>>,
    pub overview: Option<Seq<char>>,
    pub summary: Option<Seq<char>>,
    pub sections: Option<Seq<RawSectionView>>,
    pub key_points: Option<Seq<Seq<char>>>,
    pub decisions: Option<Seq<Seq<char>>>,
    pub action_items: Option<Seq<ItemView>>,
    pub topics: Option<Seq<Seq<char>>>,
}

/// The views of an optional list of texts.
pub open spec fn opt_views(o: Option<Vec<String>>) -> Option<Seq<Seq<char>>> {
    match o {
        Some(v) => Some(views(v@)),
        None => None,
    }
}

impl View for SummaryPatch {
    type V = PatchView;

    open spec fn view(&self) -> PatchView {
        PatchView {
            live: opt_view(self.live),
            overview: opt_view(self.overview),
            summary: opt_view(self.summary),
            sections: match self.sections {
                Some(v) => Some(raw_views(v@)),
                None => None,
            },
            key_points: opt_views(self.key_points),
            decisions: opt_views(self.decisions),
            action_items: match self.action_items {
                Some(v) => Some(v@.map_values(|a: ActionItemRaw| item_of(a))),
                None => None,
            },
            topics: opt_views(self.topics),
        }
    }
}

/// The items that say what is to be done.
pub open spec fn said_items(items: Seq<ItemView>) -> Seq<ItemView>
    decreases items.len(),
{
    if items.len() == 0 {
        items
    } else if items.last().text.len() == 0 {
        said_items(items.drop_last())
    } else {
        said_items(items.drop_last()).push(items.last())
    }
}

/// A new text for `now`, made one line: nothing where the patch has none, an
/// empty one, or the same.
pub open spec fn new_line(now: Seq<char>, patch: Option<Seq<char>>) -> Option<Seq<char>> {
    match patch {
        Some(v) => if collapsed(v).len() > 0 && collapsed(v) != now {
            Some(collapsed(v))
        } else {
            None
        },
        None => None,
    }
}

/// An overview as it is kept: one line, and not too long.
pub open spec fn kept_overview(v: Seq<char>) -> Seq<char> {
    truncated(collapsed(v), MAX_SUMMARY_CHARS as int / 2)
}

/// A new overview: nothing where the patch has none, an empty one, or one that
/// would be kept as `now`.
pub open spec fn new_overview(now: Seq<char>, patch: Option<Seq<char>>) -> Option<Seq<char>> {
    match patch {
        Some(v) => if collapsed(v).len() > 0 && kept_overview(v) != now {
            Some(kept_overview(v))
        } else {
            None
        },
        None => None,
    }
}

/// A summary as it is kept: a list, and not too long.
pub open spec fn kept_summary(v: Seq<char>) -> Seq<char> {
    truncated(markdown_list(v), MAX_SUMMARY_CHARS as int)
}

/// A new summary, which only counts as long as there are no sections: nothing
/// where the patch has none, an empty one, or one that would be kept as it is.
pub open spec fn new_summary(s: SummaryView, patch: Option<Seq<char>>) -> Option<Seq<char>> {
    match patch {
        Some(v) => if markdown_list(v).len() > 0 && kept_summary(v) != s.summary
            && s.sections.len() == 0 {
            Some(kept_summary(v))
        } else {
            None
        },
        None => None,
    }
}

/// New sections: nothing where the patch has none, or the same.
pub open spec fn new_sections(
    now: Seq<SectionView>,
    patch: Option<Seq<RawSectionView>>,
) -> Option<Seq<SectionView>> {
    match patch {
        Some(raw) => {
            let all = limited(merged_sections(raw), MAX_SECTIONS as int);
            if all.len() > 0 && all != now {
                Some(all)
            } else {
                None
            }
        },
        None => None,
    }
}

/// A new list: nothing where the patch has none, an empty one, or the same.
pub open spec fn new_list(
    now: Seq<Seq<char>>,
    patch: Option<Seq<Seq<char>>>,
    limit: int,
) -> Option<Seq<Seq<char>>> {
    match patch {
        Some(items) => {
            let all = cleaned_list(items, limit);
            if all.len() > 0 && all != now {
                Some(all)
            } else {
                None
            }
        },
        None => None,
    }
}

/// New things to be done: nothing where the patch has none, or the same.
pub open spec fn new_items(
    now: Seq<ItemView>,
    patch: Option<Seq<ItemView>>,
) -> Option<Seq<ItemView>> {
    match patch {
        Some(items) => {
            let all = limited(said_items(items), MAX_LIST_ITEMS as int);
            if all.len() > 0 && all != now {
                Some(all)
            } else {
                None
            }
        },
        None => None,
    }
}

/// `new`, or `now` where there is nothing new.
pub open spec fn or_kept<T>(new: Option<T>, now: T) -> T {
    match new {
        Some(v) => v,
        None => now,
    }
}

/// Whether a patch changes what the minutes say.
pub open spec fn patch_changes(s: SummaryView, p: PatchView) -> bool {
    ||| new_line(s.live, p.live) is Some
    ||| new_overview(s.overview, p.overview) is Some
    ||| new_summary(s, p.summary) is Some
    ||| new_sections(s.sections, p.sections) is Some
    ||| new_list(s.key_points, p.key_points, MAX_LIST_ITEMS as int) is Some
    ||| new_list(s.decisions, p.decisions, MAX_LIST_ITEMS as int) is Some
    ||| new_items(s.action_items, p.action_items) is Some
    ||| new_list(s.topics, p.topics, MAX_TOPICS as int) is Some
}

/// The state after a patch was merged at time `now`.
pub open spec fn patched(
    s: SummaryView,
    p: PatchView,
    model: Seq<char>,
    covered_until: i64,
    usage: TokenUsage,
    now: i64,
) -> SummaryView {
    let sections = new_sections(s.sections, p.sections);
    SummaryView {
        live: or_kept(new_line(s.live, p.live), s.live),
        overview: or_kept(new_overview(s.overview, p.overview), s.overview),
        summary: match sections {
            Some(all) => truncated(sections_list(all), MAX_SUMMARY_CHARS as int),
            None => or_kept(new_summary(s, p.summary), s.summary),
        },
        sections: or_kept(sections, s.sections),
        key_points: or_kept(
            new_list(s.key_points, p.key_points, MAX_LIST_ITEMS as int),
            s.key_points,
        ),
        decisions: or_kept(
            new_list(s.decisions, p.decisions, MAX_LIST_ITEMS as int),
            s.decisions,
        ),
        action_items: or_kept(new_items(s.action_items, p.action_items), s.action_items),
        topics: or_kept(new_list(s.topics, p.topics, MAX_TOPICS as int), s.topics),
        updated_at: now,
        covered_until: if covered_until >= s.covered_until {
            covered_until
        } else {
            s.covered_until
        },
        revision: saturated(s.revision, 1),
        model: Some(model),
        error: None,
        prompt_tokens: saturated(s.prompt_tokens, usage.prompt_tokens),
        completion_tokens: saturated(s.completion_tokens, usage.completion_tokens),
        calls: saturated(s.calls, 1),
    }
}

/// The eight parts of the minutes are the same.
pub open spec fn same_minutes(a: SummaryView, b: SummaryView) -> bool {
    &&& a.live == b.live
    &&& a.overview == b.overview
    &&& a.summary == b.summary
    &&& a.sections == b.sections
    &&& a.key_points == b.key_points
    &&& a.decisions == b.decisions
    &&& a.action_items == b.action_items
    &&& a.topics == b.topics
}

/// What counts as a change is one that shows.
proof fn lemma_changes_show(
    s: SummaryView,
    p: PatchView,
    model: Seq<char>,
    covered_until: i64,
    usage: TokenUsage,
    now: i64,
)
    ensures
        patch_changes(s, p) == !same_minutes(
            s,
            patched(s, p, model, covered_until, usage, now),
        ),
{
}

fn fresh_line(now: &String, patch: &Option<String>) -> (r: Option<String>)
    ensures
        opt_view(r) == new_line(now@, opt_view(*patch)),
{
    match patch {
        Some(v) => {
            let v = collapse_ws(v.as_str());
            if v.as_str().unicode_len() > 0 && !same(v.as_str(), now.as_str()) {
                Some(v)
            } else {
                None
            }
        },
        None => None,
    }
}

fn fresh_list(now: &Vec<String>, patch: &Option<Vec<String>>, limit: usize) -> (r: Option<
    Vec<String>,
>)
    requires
        limit >= 1,
    ensures
        opt_views(r) == new_list(views(now@), opt_views(*patch), limit as int),
{
    match patch {
        Some(items) => {
            let all = clean_list(items, limit);
            proof {
                assert(views(all@).len() == all@.len());
            }
            if all.len() > 0 && !same_texts(&all, now) {
                Some(all)
            } else {
                None
            }
        },
        None => None,
    }
}

fn fresh_sections(now: &Vec<SummarySection>, patch: &Option<Vec<SectionRaw>>) -> (r: Option<
    Vec<SummarySection>,
>)
    ensures
        match r {
            Some(v) => new_sections(
                section_views(now@),
                match *patch {
                    Some(p) => Some(raw_views(p@)),
                    None => None,
                },
            ) == Some(section_views(v@)),
            None => new_sections(
                section_views(now@),
                match *patch {
                    Some(p) => Some(raw_views(p@)),
                    None => None,
                },
            ) is None,
        },
{
    match patch {
        Some(raw) => {
            let mut all = merge_sections(raw);
            let ghost merged = section_views(all@);
            let n: usize = all.len();
            if n > MAX_SECTIONS {
                all.truncate(MAX_SECTIONS);
                proof {
                    assert(section_views(all@) =~= merged.take(MAX_SECTIONS as int));
                }
            }
            proof {
                assert(section_views(all@) == limited(merged, MAX_SECTIONS as int));
                assert(section_views(all@).len() == all@.len());
            }
            if all.len() > 0 && !same_sections(&all, now) {
                Some(all)
            } else {
                None
            }
        },
        None => None,
    }
}

/// The first items that say what is to be done.
fn clean_items(items: Vec<ActionItemRaw>) -> (r: Vec<ActionItem>)
    ensures
        item_views(r@) == limited(
            said_items(items@.map_values(|a: ActionItemRaw| item_of(a))),
            MAX_LIST_ITEMS as int,
        ),
{
    let ghost all = items@.map_values(|a: ActionItemRaw| item_of(a));
    let mut out: Vec<ActionItem> = Vec::new();
    let ghost mut i: int = 0;
    proof {
        assert(item_views(out@) =~= said_items(all.take(0)));
    }
    for raw in it: items
        invariant
            all == it.seq().map_values(|a: ActionItemRaw| item_of(a)),
            0 <= i == it.index() <= all.len(),
            item_views(out@) == said_items(all.take(i)),
        decreases all.len() - i,
    {
        proof {
            assert(all.take(i + 1).drop_last() =~= all.take(i));
            assert(all[i] == item_of(raw));
            i = i + 1;
        }
        let ghost before = item_views(out@);
        let item = raw.into_item();
        let ghost iv = item@;
        if item.text.as_str().unicode_len() > 0 {
            out.push(item);
            proof {
                assert(item_views(out@) =~= before.push(iv));
            }
        }
    }
    proof {
        assert(all.take(i) =~= all);
    }
    let ghost said = item_views(out@);
    let n: usize = out.len();
    proof {
        assert(said.len() == out@.len());
    }
    if n > MAX_LIST_ITEMS {
        out.truncate(MAX_LIST_ITEMS);
        proof {
            assert(item_views(out@) =~= said.take(MAX_LIST_ITEMS as int));
        }
    }
    out
}

/// Merges a patch into the state at time `now` and says whether the minutes
/// changed.
pub fn apply_patch_at(
    state: &mut SummaryState,
    patch: SummaryPatch,
    model: &str,
    covered_until_ms: i64,
    usage: &TokenUsage,
    now: i64,
) -> (changed: bool)
    ensures
        final(state)@ == patched(old(state)@, patch@, model@, covered_until_ms, *usage, now),
        changed == !same_minutes(old(state)@, final(state)@),
{
    let ghost s = state@;
    let ghost p = patch@;
    let mut changed: bool = false;
    if let Some(v) = fresh_line(&state.live, &patch.live) {
        state.live = v;
        changed = true;
    }
    if let Some(v) = &patch.overview {
        let line = collapse_ws(v.as_str());
        let v = truncate_chars(line.as_str(), MAX_SUMMARY_CHARS / 2);
        if line.as_str().unicode_len() > 0 && !same(v.as_str(), state.overview.as_str()) {
            state.overview = v;
            changed = true;
        }
    }
    if let Some(v) = &patch.summary {
        let list = normalize_markdown_list(v.as_str());
        let v = truncate_chars(list.as_str(), MAX_SUMMARY_CHARS);
        if list.as_str().unicode_len() > 0 && !same(v.as_str(), state.summary.as_str())
            && state.sections.len() == 0 {
            state.summary = v;
            changed = true;
        }
    }
    if let Some(v) = fresh_sections(&state.sections, &patch.sections) {
        state.summary = truncate_chars(sections_to_markdown(&v).as_str(), MAX_SUMMARY_CHARS);
        state.sections = v;
        changed = true;
    }
    if let Some(v) = fresh_list(&state.key_points, &patch.key_points, MAX_LIST_ITEMS) {
        state.key_points = v;
        changed = true;
    }
    if let Some(v) = fresh_list(&state.decisions, &patch.decisions, MAX_LIST_ITEMS) {
        state.decisions = v;
        changed = true;
    }
    let topics = fresh_list(&state.topics, &patch.topics, MAX_TOPICS);
    if let Some(items) = patch.action_items {
        let all = clean_items(items);
        proof {
            assert(item_views(all@).len() == all@.len());
        }
        if all.len() > 0 && !same_items(&all, &state.action_items) {
            state.action_items = all;
            changed = true;
        }
    }
    if let Some(v) = topics {
        state.topics = v;
        changed = true;
    }
    if covered_until_ms >= state.covered_until_ms {
        state.covered_until_ms = covered_until_ms;
    }
    state.revision = saturating_sum(state.revision, 1);
    state.updated_at = now;
    state.model = Some(model.to_owned());
    state.calls = saturating_sum(state.calls, 1);
    state.prompt_tokens = saturating_sum(state.prompt_tokens, usage.prompt_tokens);
    state.completion_tokens = saturating_sum(state.completion_tokens, usage.completion_tokens);
    state.clear_error();
    proof {
        lemma_changes_show(s, p, model@, covered_until_ms, *usage, now);
    }
    changed
}

/// Merges a patch into the state now.
pub fn apply_patch(
    state: &mut SummaryState,
    patch: SummaryPatch,
    model: &str,
    covered_until_ms: i64,
    usage: &TokenUsage,
) -> (changed: bool)
    ensures
        exists|now: i64|
            final(state)@ == #[trigger] patched(
                old(state)@,
                patch@,
                model@,
                covered_until_ms,
                *usage,
                now,
            ),
        changed == !same_minutes(old(state)@, final(state)@),
{
    apply_patch_at(state, patch, model, covered_until_ms, usage, now_ms())
}

impl SummaryState {
    /// Whether no minutes have been made yet.
    pub fn is_empty(&self) -> (r: bool)
        ensures
            r == (self@.revision == 0),
    {
        self.revision == 0
    }

    pub fn clear_error(&mut self)
        ensures
            final(self)@ == (SummaryView { error: None, ..old(self)@ }),
    {
        self.error = None;
    }

    pub fn set_error(&mut self, msg: &str)
        ensures
            final(self)@ == (SummaryView { error: Some(msg@), ..old(self)@ }),
    {
        self.error = Some(msg.to_owned());
    }
}

// ---------------------------------------------------------------------------
// What always holds of the minutes
// ---------------------------------------------------------------------------

/// The position up to which the transcript is covered never goes back, and
/// reaches at least as far as what was merged.
pub proof fn law_covered_position_never_goes_back(
    s: SummaryView,
    p: PatchView,
    model: Seq<char>,
    covered_until: i64,
    usage: TokenUsage,
    now: i64,
)
    ensures
        patched(s, p, model, covered_until, usage, now).covered_until >= s.covered_until,
        patched(s, p, model, covered_until, usage, now).covered_until >= covered_until,
{
}

/// A patch that is merged once more changes no part of the minutes.
pub proof fn law_repeated_patch_changes_nothing(
    s: SummaryView,
    p: PatchView,
    model: Seq<char>,
    covered_until: i64,
    usage: TokenUsage,
    now: i64,
    model2: Seq<char>,
    covered_until2: i64,
    usage2: TokenUsage,
    now2: i64,
)
    ensures
        ({
            let once = patched(s, p, model, covered_until, usage, now);
            same_minutes(once, patched(once, p, model2, covered_until2, usage2, now2))
        }),
{
}

/// A list that a patch leaves out, or gives as empty, stays as it was; so do
/// texts.
pub proof fn law_empty_patch_wipes_nothing(
    s: SummaryView,
    p: PatchView,
    model: Seq<char>,
    covered_until: i64,
    usage: TokenUsage,
    now: i64,
)
    ensures
        ({
            let r = patched(s, p, model, covered_until, usage, now);
            &&& p.key_points is None || p.key_points->0.len() == 0 ==> r.key_points == s.key_points
            &&& p.decisions is None || p.decisions->0.len() == 0 ==> r.decisions == s.decisions
            &&& p.topics is None || p.topics->0.len() == 0 ==> r.topics == s.topics
            &&& p.action_items is None || p.action_items->0.len() == 0 ==> r.action_items
                == s.action_items
            &&& p.sections is None || p.sections->0.len() == 0 ==> r.sections == s.sections
            &&& p.live is None ==> r.live == s.live
            &&& p.overview is None ==> r.overview == s.overview
            &&& s.key_points.len() > 0 ==> r.key_points.len() > 0
            &&& s.decisions.len() > 0 ==> r.decisions.len() > 0
            &&& s.action_items.len() > 0 ==> r.action_items.len() > 0
            &&& s.topics.len() > 0 ==> r.topics.len() > 0
            &&& s.sections.len() > 0 ==> r.sections.len() > 0
        }),
{
}

/// The minutes stay within their limits.
pub open spec fn within_limits(s: SummaryView) -> bool {
    &&& s.overview.len() <= MAX_SUMMARY_CHARS / 2 + 1
    &&& s.summary.len() <= MAX_SUMMARY_CHARS + 1
    &&& s.sections.len() <= MAX_SECTIONS
    &&& forall|i: int|
        0 <= i < s.sections.len() ==> (#[trigger] s.sections[i]).points.len() <= MAX_SECTION_POINTS
    &&& s.key_points.len() <= MAX_LIST_ITEMS
    &&& s.decisions.len() <= MAX_LIST_ITEMS
    &&& s.action_items.len() <= MAX_LIST_ITEMS
    &&& s.topics.len() <= MAX_TOPICS
}

proof fn lemma_merged_points(raw: Seq<RawSectionView>)
    ensures
        forall|i: int|
            0 <= i < merged_sections(raw).len() ==> (#[trigger] merged_sections(
                raw,
            )[i]).points.len() <= MAX_SECTION_POINTS,
    decreases raw.len(),
{
    if raw.len() > 0 {
        lemma_merged_points(raw.drop_last());
        let before = merged_sections(raw.drop_last());
        let r = merged_sections(raw);
        assert forall|i: int| 0 <= i < r.len() implies (#[trigger] r[i]).points.len()
            <= MAX_SECTION_POINTS by {
            if i < before.len() - 1 {
                assert(r[i] == before[i]);
            } else if i < before.len() {
                assert(before[i].points.len() <= MAX_SECTION_POINTS);
            }
        }
    }
}

/// However long a meeting is, merging keeps the minutes within their limits.
pub proof fn law_minutes_stay_within_limits(
    s: SummaryView,
    p: PatchView,
    model: Seq<char>,
    covered_until: i64,
    usage: TokenUsage,
    now: i64,
)
    requires
        within_limits(s),
    ensures
        within_limits(patched(s, p, model, covered_until, usage, now)),
{
    if let Some(raw) = p.sections {
        lemma_merged_points(raw);
        let r = patched(s, p, model, covered_until, usage, now);
        assert forall|i: int| 0 <= i < r.sections.len() implies (
        #[trigger] r.sections[i]).points.len() <= MAX_SECTION_POINTS by {
            if new_sections(s.sections, p.sections) is Some {
                assert(r.sections[i] == merged_sections(raw)[i]);
            }
        }
    }
}

/// A cleaned list has no empty item and no item twice.
pub proof fn law_cleaned_lists_are_distinct(items: Seq<Seq<char>>, limit: int)
    requires
        0 <= limit,
    ensures
        cleaned_list(items, limit).no_duplicates(),
        forall|i: int|
            0 <= i < cleaned_list(items, limit).len() ==> (#[trigger] cleaned_list(
                items,
                limit,
            )[i]).len() > 0,
        cleaned_list(items, limit).len() <= limit,
{
    lemma_distinct_items(items);
}

proof fn lemma_distinct_items(items: Seq<Seq<char>>)
    ensures
        distinct_items(items).no_duplicates(),
        forall|i: int|
            0 <= i < distinct_items(items).len() ==> (#[trigger] distinct_items(items)[i]).len() > 0,
    decreases items.len(),
{
    if items.len() > 0 {
        lemma_distinct_items(items.drop_last());
    }
}

/// Whatever the minutes held before, a text or list of a reply with something in it
/// takes the place of the old one; so the latest reply is what the minutes say.
pub proof fn law_latest_reply_is_what_the_minutes_say(
    s: SummaryView,
    p: PatchView,
    model: Seq<char>,
    covered_until: i64,
    usage: TokenUsage,
    now: i64,
)
    ensures
        ({
            let r = patched(s, p, model, covered_until, usage, now);
            &&& p.key_points matches Some(d) ==> cleaned_list(d, 20).len() > 0 ==> r.key_points
                == cleaned_list(d, 20)
            &&& p.decisions matches Some(d) ==> cleaned_list(d, 20).len() > 0 ==> r.decisions
                == cleaned_list(d, 20)
            &&& p.topics matches Some(d) ==> cleaned_list(d, 8).len() > 0 ==> r.topics
                == cleaned_list(d, 8)
            &&& p.action_items matches Some(d) ==> {
                let said = d.filter(|a: ItemView| a.text.len() > 0);
                said.len() > 0 ==> r.action_items == if said.len() <= 20 {
                    said
                } else {
                    said.take(20)
                }
            }
            &&& p.sections matches Some(d) ==> {
                let all = merged_sections(d);
                all.len() > 0 ==> r.sections == if all.len() <= 40 {
                    all
                } else {
                    all.take(40)
                }
            }
            &&& p.live matches Some(t) ==> collapsed(t).len() > 0 ==> r.live == collapsed(t)
            &&& p.overview matches Some(t) ==> collapsed(t).len() > 0 ==> r.overview == if collapsed(
                t,
            ).len() <= 2_000 {
                collapsed(t)
            } else {
                collapsed(t).take(2_000).push('…')
            }
            &&& p.summary matches Some(t) ==> markdown_list(t).len() > 0 && s.sections.len() == 0
                && p.sections is None ==> r.summary == if markdown_list(t).len() <= 4_000 {
                markdown_list(t)
            } else {
                markdown_list(t).take(4_000).push('…')
            }
            &&& r.sections != s.sections ==> r.summary == truncated(
                sections_list(r.sections),
                4_000,
            )
        }),
{
    if let Some(d) = p.action_items {
        lemma_said_items(d);
    }
}

proof fn lemma_said_items(items: Seq<ItemView>)
    ensures
        said_items(items) == items.filter(|a: ItemView| a.text.len() > 0),
    decreases items.len(),
{
    reveal(Seq::filter);
    if items.len() > 0 {
        lemma_said_items(items.drop_last());
    }
}

/// Each part of the minutes depends on the part of the same name of a patch, and on
/// nothing else of it.
pub proof fn law_parts_of_a_patch_do_not_mix(
    s: SummaryView,
    p: PatchView,
    q: PatchView,
    model: Seq<char>,
    covered_until: i64,
    usage: TokenUsage,
    now: i64,
)
    ensures
        ({
            let a = patched(s, p, model, covered_until, usage, now);
            let b = patched(s, q, model, covered_until, usage, now);
            &&& p.live == q.live ==> a.live == b.live
            &&& p.overview == q.overview ==> a.overview == b.overview
            &&& p.sections == q.sections ==> a.sections == b.sections
            &&& p.key_points == q.key_points ==> a.key_points == b.key_points
            &&& p.decisions == q.decisions ==> a.decisions == b.decisions
            &&& p.action_items == q.action_items ==> a.action_items == b.action_items
            &&& p.topics == q.topics ==> a.topics == b.topics
        }),
{
}

/// Each merged reply is counted once, with its tokens, and leaves no error behind.
pub proof fn law_each_reply_is_counted(
    s: SummaryView,
    p: PatchView,
    model: Seq<char>,
    covered_until: i64,
    usage: TokenUsage,
    now: i64,
)
    ensures
        ({
            let r = patched(s, p, model, covered_until, usage, now);
            &&& s.revision < u32::MAX ==> r.revision == s.revision + 1
            &&& s.calls < u32::MAX ==> r.calls == s.calls + 1
            &&& s.prompt_tokens + usage.prompt_tokens <= u32::MAX ==> r.prompt_tokens
                == s.prompt_tokens + usage.prompt_tokens
            &&& s.completion_tokens + usage.completion_tokens <= u32::MAX ==> r.completion_tokens
                == s.completion_tokens + usage.completion_tokens
            &&& r.revision >= s.revision && r.calls >= s.calls
            &&& r.prompt_tokens >= s.prompt_tokens && r.completion_tokens >= s.completion_tokens
            &&& r.model == Some(model) && r.error is None && r.updated_at == now
            &&& r.covered_until == s.covered_until || r.covered_until == covered_until
        }),
{
}

/// A cleaned list holds every item of the list that says something, as long as there
/// is room, and nothing but such items.
pub proof fn law_cleaned_lists_lose_nothing(items: Seq<Seq<char>>, limit: int)
    requires
        1 <= limit,
    ensures
        forall|i: int|
            0 <= i < items.len() && plain_item(#[trigger] items[i]).len() > 0 ==> cleaned_list(
                items,
                limit,
            ).contains(plain_item(items[i])) || cleaned_list(items, limit).len() == limit,
        forall|k: int|
            0 <= k < cleaned_list(items, limit).len() ==> exists|i: int|
                0 <= i < items.len() && (#[trigger] cleaned_list(items, limit)[k]) == plain_item(
                    #[trigger] items[i],
                ),
{
    let all = distinct_items(items);
    lemma_distinct_items_members(items);
    assert forall|i: int|
        0 <= i < items.len() && plain_item(#[trigger] items[i]).len() > 0 implies cleaned_list(
        items,
        limit,
    ).contains(plain_item(items[i])) || cleaned_list(items, limit).len() == limit by {
        assert(all.contains(plain_item(items[i])));
    }
    assert forall|k: int| 0 <= k < cleaned_list(items, limit).len() implies exists|i: int|
        0 <= i < items.len() && (#[trigger] cleaned_list(items, limit)[k]) == plain_item(
            #[trigger] items[i],
        ) by {
        assert(cleaned_list(items, limit)[k] == all[k]);
    }
}

proof fn lemma_distinct_items_members(items: Seq<Seq<char>>)
    ensures
        forall|i: int|
            0 <= i < items.len() && plain_item(#[trigger] items[i]).len() > 0 ==> distinct_items(
                items,
            ).contains(plain_item(items[i])),
        forall|k: int|
            0 <= k < distinct_items(items).len() ==> exists|i: int|
                0 <= i < items.len() && (#[trigger] distinct_items(items)[k]) == plain_item(
                    #[trigger] items[i],
                ),
    decreases items.len(),
{
    if items.len() > 0 {
        let head = items.drop_last();
        let last = items.len() - 1;
        lemma_distinct_items_members(head);
        let before = distinct_items(head);
        let all = distinct_items(items);
        assert forall|i: int|
            0 <= i < items.len() && plain_item(#[trigger] items[i]).len() > 0 implies all.contains(
            plain_item(items[i]),
        ) by {
            if i < last {
                assert(head[i] == items[i]);
                let k = choose|k: int| 0 <= k < before.len() && before[k] == plain_item(items[i]);
                assert(all[k] == plain_item(items[i]));
            } else if !before.contains(plain_item(items[i])) {
                assert(all[before.len() as int] == plain_item(items[i]));
            }
        }
        assert forall|k: int| 0 <= k < all.len() implies exists|i: int|
            0 <= i < items.len() && (#[trigger] all[k]) == plain_item(#[trigger] items[i]) by {
            if k < before.len() {
                let i = choose|i: int|
                    0 <= i < head.len() && before[k] == plain_item(#[trigger] head[i]);
                assert(all[k] == plain_item(items[i]));
            } else {
                assert(all[k] == plain_item(items[last]));
            }
        }
    }
}

/// Items of a cleaned list stand in the order in which they were given: what is
/// given later never changes what came before.
pub proof fn law_cleaned_lists_keep_the_order(
    items: Seq<Seq<char>>,
    more: Seq<Seq<char>>,
    limit: int,
)
    requires
        1 <= limit,
    ensures
        cleaned_list(items, limit).is_prefix_of(cleaned_list(items + more, limit)),
{
    lemma_distinct_prefix(items + more, items.len() as int);
    assert((items + more).take(items.len() as int) =~= items);
    let a = cleaned_list(items, limit);
    let b = cleaned_list(items + more, limit);
    let short = distinct_items(items);
    let long = distinct_items(items + more);
    assert forall|i: int| 0 <= i < a.len() implies a[i] == b[i] by {
        assert(a[i] == short[i]);
        assert(short[i] == long.take(short.len() as int)[i]);
        assert(b[i] == long[i]);
    }
    assert(a =~= b.take(a.len() as int));
}

/// Sections with different titles stay as they were given, one by one: each has its
/// title, its points and its time.
pub proof fn law_sections_keep_titles_points_and_times(raw: Seq<RawSectionView>)
    requires
        forall|i: int| 0 <= i < raw.len() ==> collapsed((#[trigger] raw[i]).title).len() > 0,
        forall|i: int, j: int|
            0 <= i < j < raw.len() ==> truncated(collapsed((#[trigger] raw[i]).title), 60)
                != truncated(collapsed((#[trigger] raw[j]).title), 60),
    ensures
        merged_sections(raw).len() == raw.len(),
        forall|i: int|
            0 <= i < raw.len() ==> {
                let m = #[trigger] merged_sections(raw)[i];
                &&& m.title == truncated(collapsed(raw[i].title), 60)
                &&& m.points == cleaned_list(raw[i].points, 12)
                &&& m.until == raw[i].until
            },
    decreases raw.len(),
{
    if raw.len() > 0 {
        let head = raw.drop_last();
        let last = raw.len() - 1;
        assert forall|i: int| 0 <= i < head.len() implies collapsed(
            (#[trigger] head[i]).title,
        ).len() > 0 by {
            assert(head[i] == raw[i]);
        }
        assert forall|i: int, j: int| 0 <= i < j < head.len() implies truncated(
            collapsed((#[trigger] head[i]).title),
            60,
        ) != truncated(collapsed((#[trigger] head[j]).title), 60) by {
            assert(head[i] == raw[i] && head[j] == raw[j]);
        }
        law_sections_keep_titles_points_and_times(head);
        let before = merged_sections(head);
        assert(collapsed(raw[last].title).len() > 0);
        if before.len() > 0 {
            assert(before[last - 1].title == truncated(collapsed(head[last - 1].title), 60));
            assert(head[last - 1] == raw[last - 1]);
        }
        assert(merged_sections(raw) == before.push(
            SectionView {
                title: section_title(raw[last]),
                points: cleaned_list(raw[last].points, MAX_SECTION_POINTS as int),
                until: raw[last].until,
            },
        ));
    }
}

/// A section that follows one of the same title goes on with it: its points follow
/// the others as far as there is room, and no second section of that title begins.
pub proof fn law_neighbours_of_one_title_are_one_section(
    raw: Seq<RawSectionView>,
    next: RawSectionView,
)
    requires
        merged_sections(raw).len() > 0,
        collapsed(next.title).len() > 0,
        merged_sections(raw).last().title == truncated(collapsed(next.title), 60),
    ensures
        ({
            let a = merged_sections(raw);
            let b = merged_sections(raw.push(next));
            let both = a.last().points + cleaned_list(next.points, 12);
            &&& b.len() == a.len()
            &&& b.drop_last() == a.drop_last()
            &&& b.last().title == a.last().title
            &&& b.last().until == a.last().until
            &&& b.last().points == if both.len() <= 12 {
                both
            } else {
                both.take(12)
            }
        }),
{
    assert(raw.push(next).drop_last() =~= raw);
    let a = merged_sections(raw);
    let b = merged_sections(raw.push(next));
    assert(b.drop_last() =~= a.drop_last());
}

/// A section without title and points is left out; one with points only is kept.
pub proof fn law_only_empty_sections_are_left_out(raw: Seq<RawSectionView>, next: RawSectionView)
    requires
        collapsed(next.title).len() == 0,
    ensures
        cleaned_list(next.points, 12).len() == 0 ==> merged_sections(raw.push(next))
            == merged_sections(raw),
        cleaned_list(next.points, 12).len() > 0 ==> merged_sections(raw.push(next)).len() > 0
            && merged_sections(raw.push(next)).last().title == "未命名段落"@,
{
    assert(raw.push(next).drop_last() =~= raw);
}

/// The minutes as a list hold every point of every section as a line, and the title
/// of each where there are several.
pub proof fn law_list_of_sections_holds_all_points(sections: Seq<SectionView>, i: int, k: int)
    requires
        0 <= i < sections.len(),
        0 <= k < sections[i].points.len(),
    ensures
        has_text(sections_list(sections), "- "@ + sections[i].points[k]),
        sections.len() > 1 ==> has_text(
            sections_list(sections),
            "**"@ + sections[i].title + "**"@,
        ),
{
    let titled = sections.len() > 1;
    let all = section_lines(sections, titled);
    lemma_section_lines_hold(sections, titled, i, k);
    let a = choose|a: int| 0 <= a < all.len() && all[a] == "- "@ + sections[i].points[k];
    lemma_joined_holds(all, "\n"@, a);
    if titled {
        let b = choose|b: int| 0 <= b < all.len() && all[b] == "**"@ + sections[i].title + "**"@;
        lemma_joined_holds(all, "\n"@, b);
    }
}

proof fn lemma_section_lines_hold(sections: Seq<SectionView>, titled: bool, i: int, k: int)
    requires
        0 <= i < sections.len(),
        0 <= k < sections[i].points.len(),
    ensures
        section_lines(sections, titled).contains("- "@ + sections[i].points[k]),
        titled ==> section_lines(sections, titled).contains("**"@ + sections[i].title + "**"@),
    decreases sections.len(),
{
    let all = section_lines(sections, titled);
    let before = section_lines(sections.drop_last(), titled);
    if i < sections.len() - 1 {
        assert(sections.drop_last()[i] == sections[i]);
        lemma_section_lines_hold(sections.drop_last(), titled, i, k);
        let point = "- "@ + sections[i].points[k];
        let a = choose|a: int| 0 <= a < before.len() && before[a] == point;
        assert(all[a] == point);
        if titled {
            let title = "**"@ + sections[i].title + "**"@;
            let b = choose|b: int| 0 <= b < before.len() && before[b] == title;
            assert(all[b] == title);
        }
    } else {
        let n = before.len() as int;
        let lines = point_lines(sections[i].points);
        if titled {
            assert(all[n] == "**"@ + sections[i].title + "**"@);
            assert(all[n + 1 + k] == lines[k]);
        } else {
            assert(all[n + k] == lines[k]);
        }
    }
}

// ---------------------------------------------------------------------------
// Texts for prompts, and copies
// ---------------------------------------------------------------------------

/// One thing to be done as a line.
pub open spec fn item_line(a: ItemView) -> Seq<char> {
    "- "@ + a.text + if a.owner.len() > 0 {
        "（负责人："@ + a.owner + "）"@
    } else {
        Seq::empty()
    } + if a.due.len() > 0 {
        "（截止："@ + a.due + "）"@
    } else {
        Seq::empty()
    }
}

fn line_of_item(a: &ActionItem) -> (r: String)
    ensures
        r@ == item_line(a@),
{
    let mut s = "- ".to_owned();
    s.append(a.text.as_str());
    let ghost head = s@;
    let ghost owner = if a.owner@.len() > 0 {
        "（负责人："@ + a.owner@ + "）"@
    } else {
        Seq::empty()
    };
    if a.owner.as_str().unicode_len() > 0 {
        s.append("（负责人：");
        s.append(a.owner.as_str());
        s.append("）");
    }
    proof {
        assert(s@ =~= head + owner);
    }
    if a.due.as_str().unicode_len() > 0 {
        s.append("（截止：");
        s.append(a.due.as_str());
        s.append("）");
    }
    proof {
        assert(s@ =~= item_line(a@));
    }
    s
}

/// All things to be done, a line each.
pub open spec fn items_text(items: Seq<ItemView>) -> Seq<char> {
    joined(items.map_values(|a: ItemView| item_line(a)), "\n"@)
}

/// Everything that is to be done is told to the model, each with who does it and until
/// when, where that is known.
pub proof fn law_things_to_be_done_are_all_told(items: Seq<ItemView>, i: int)
    requires
        0 <= i < items.len(),
    ensures
        has_text(items_text(items), "- "@ + items[i].text),
        items[i].owner.len() > 0 ==> has_text(
            items_text(items),
            "（负责人："@ + items[i].owner + "）"@,
        ),
        items[i].due.len() > 0 ==> has_text(items_text(items), "（截止："@ + items[i].due + "）"@),
        items[i].owner.len() == 0 && items[i].due.len() == 0 ==> item_line(items[i]) == "- "@
            + items[i].text,
{
    let a = items[i];
    let e = Seq::<char>::empty();
    let lines = items.map_values(|x: ItemView| item_line(x));
    lemma_joined_holds(lines, "\n"@, i);
    let text = "- "@ + a.text;
    let owner = "（负责人："@ + a.owner + "）"@;
    let due = "（截止："@ + a.due + "）"@;
    let line = item_line(a);
    let with_owner = if a.owner.len() > 0 {
        owner
    } else {
        e
    };
    let with_due = if a.due.len() > 0 {
        due
    } else {
        e
    };
    assert(line =~= text + with_owner + with_due);
    lemma_text_within(e, text, with_owner + with_due);
    assert(e + text + (with_owner + with_due) =~= line);
    lemma_text_within(text, with_owner, with_due);
    lemma_text_within(text + with_owner, with_due, e);
    assert(text + with_owner + with_due + e =~= line);
    let whole = items_text(items);
    let at = choose|at: int| occurs_at(whole, line, at);
    let before = whole.take(at);
    let after = whole.skip(at + line.len());
    assert(before + line + after =~= whole);
    lemma_text_within_part(before, line, after, text);
    lemma_text_within_part(before, line, after, with_owner);
    lemma_text_within_part(before, line, after, with_due);
    if a.owner.len() == 0 && a.due.len() == 0 {
        assert(line =~= text);
    }
}

impl SummaryState {
    /// What is to be done, for the next prompt.
    pub fn action_items_text(&self) -> (r: String)
        ensures
            r@ == items_text(self@.action_items),
    {
        let n: usize = self.action_items.len();
        let mut out: Vec<String> = Vec::new();
        let mut i: usize = 0;
        while i < n
            invariant
                i <= n == self.action_items@.len(),
                out@.len() == i,
                forall|k: int|
                    0 <= k < i ==> (#[trigger] out@[k])@ == item_line(self.action_items@[k]@),
            decreases n - i,
        {
            out.push(line_of_item(&self.action_items[i]));
            i += 1;
        }
        proof {
            assert(views(out@) =~= self@.action_items.map_values(|a: ItemView| item_line(a)));
        }
        join(&out, "\n")
    }

    /// A copy of the state.
    pub fn duplicate(&self) -> (r: SummaryState)
        ensures
            r@ == self@,
    {
        let mut sections: Vec<SummarySection> = Vec::new();
        let n: usize = self.sections.len();
        let mut i: usize = 0;
        while i < n
            invariant
                i <= n == self.sections@.len(),
                sections@.len() == i,
                forall|k: int| 0 <= k < i ==> (#[trigger] sections@[k])@ == self.sections@[k]@,
            decreases n - i,
        {
            let s = &self.sections[i];
            let copy = SummarySection {
                title: s.title.clone(),
                points: copy_texts(&s.points),
                until_ms: s.until_ms,
            };
            proof {
                assert(copy@ =~= s@);
            }
            sections.push(copy);
            i += 1;
        }
        let mut items: Vec<ActionItem> = Vec::new();
        let m: usize = self.action_items.len();
        let mut k: usize = 0;
        while k < m
            invariant
                k <= m == self.action_items@.len(),
                items@.len() == k,
                forall|j: int| 0 <= j < k ==> (#[trigger] items@[j])@ == self.action_items@[j]@,
            decreases m - k,
        {
            items.push(self.action_items[k].duplicate());
            k += 1;
        }
        let r = SummaryState {
            live: self.live.clone(),
            overview: self.overview.clone(),
            summary: self.summary.clone(),
            sections,
            key_points: copy_texts(&self.key_points),
            decisions: copy_texts(&self.decisions),
            action_items: items,
            topics: copy_texts(&self.topics),
            updated_at: self.updated_at,
            covered_until_ms: self.covered_until_ms,
            revision: self.revision,
            model: copy_opt(&self.model),
            error: copy_opt(&self.error),
            prompt_tokens: self.prompt_tokens,
            completion_tokens: self.completion_tokens,
            calls: self.calls,
        };
        proof {
            assert(section_views(r.sections@) =~= section_views(self.sections@));
            assert(item_views(r.action_items@) =~= item_views(self.action_items@));
        }
        r
    }
}

// ---------------------------------------------------------------------------
// Finding the patch in a reply
// ---------------------------------------------------------------------------

/// Where the object ends whose text goes on at `i`: behind the brace that closes
/// it, braces in strings not counted.
pub open spec fn object_end(
    s: Seq<char>,
    i: int,
    depth: int,
    in_string: bool,
    escaped: bool,
) -> Option<int>
    decreases s.len() - i,
{
    if i < 0 || i >= s.len() {
        None
    } else if in_string {
        if escaped {
            object_end(s, i + 1, depth, true, false)
        } else if s[i] == '\\' {
            object_end(s, i + 1, depth, true, true)
        } else {
            object_end(s, i + 1, depth, s[i] != '"', false)
        }
    } else if s[i] == '"' {
        object_end(s, i + 1, depth, true, false)
    } else if s[i] == '{' {
        object_end(s, i + 1, depth + 1, false, false)
    } else if s[i] == '}' {
        if depth == 1 {
            Some(i + 1)
        } else {
            object_end(s, i + 1, depth - 1, false, false)
        }
    } else {
        object_end(s, i + 1, depth, false, false)
    }
}

/// The first object in a text, by its braces.
pub open spec fn braced_object(s: Seq<char>) -> Option<Seq<char>> {
    let start = first_index(s, '{');
    match object_end(s, start, 0, false, false) {
        Some(end) => Some(s.subrange(start, end)),
        None => None,
    }
}

/// Finds the first object in a text by its braces.
pub fn first_braced_object(s: &str) -> (r: Option<String>)
    ensures
        opt_view(r) == braced_object(s@),
{
    let v = to_chars(s);
    let n: usize = v.len();
    let start: usize = index_from(&v, 0, '{');
    proof {
        assert(v@.skip(0) =~= v@);
    }
    let mut depth: usize = 0;
    let mut in_string: bool = false;
    let mut escaped: bool = false;
    let mut i: usize = start;
    while i < n
        invariant
            v@ == s@,
            n == v@.len(),
            start <= i <= n,
            start == first_index(s@, '{'),
            start < n ==> v@[start as int] == '{',
            depth <= i - start,
            i > start ==> depth >= 1,
            i == start ==> !in_string,
            !in_string ==> !escaped,
            object_end(s@, start as int, 0, false, false) == object_end(
                s@,
                i as int,
                depth as int,
                in_string,
                escaped,
            ),
        decreases n - i,
    {
        let c = v[i];
        if in_string {
            if escaped {
                escaped = false;
            } else if c == '\\' {
                escaped = true;
            } else if c == '"' {
                in_string = false;
            }
        } else if c == '"' {
            in_string = true;
        } else if c == '{' {
            depth += 1;
        } else if c == '}' {
            if depth == 1 {
                return Some(from_chars(&v, start, i + 1));
            }
            depth -= 1;
        }
        i += 1;
    }
    None
}

/// The lines before the fence that ends a block of code, from line `i` on.
pub open spec fn fenced_body(lines: Seq<Seq<char>>, i: int) -> Seq<Seq<char>>
    decreases lines.len() - i,
{
    if i < 0 || i >= lines.len() || "```"@.is_prefix_of(
        strip_left(lines[i], |c: char| space(c)),
    ) {
        Seq::empty()
    } else {
        seq![lines[i]] + fenced_body(lines, i + 1)
    }
}

/// A text without the fences of a block of code.
pub open spec fn unfenced(s: Seq<char>) -> Seq<char> {
    if "```"@.is_prefix_of(s) {
        joined(fenced_body(lines_of(s), 1), "\n"@)
    } else {
        s
    }
}

pub fn strip_code_fence(s: &str) -> (r: String)
    ensures
        r@ == unfenced(s@),
{
    if !starts_with(s, "```") {
        return s.to_owned();
    }
    let all = lines(s);
    let ghost av = views(all@);
    let n: usize = all.len();
    let mut body: Vec<String> = Vec::new();
    let mut i: usize = 1;
    proof {
        assert(views(body@) + fenced_body(av, 1) =~= fenced_body(av, 1));
        assert(av.len() == all@.len());
    }
    while i < n
        invariant
            1 <= i,
            n == all@.len() == av.len(),
            av == views(all@),
            views(body@) + fenced_body(av, i as int) == fenced_body(av, 1),
        ensures
            views(body@) == fenced_body(av, 1),
        decreases n - i,
    {
        let line = all[i].as_str();
        proof {
            assert(av[i as int] == line@);
        }
        if starts_with(trim_start(line), "```") {
            proof {
                assert(views(body@) + fenced_body(av, i as int) =~= views(body@));
            }
            break;
        }
        let ghost before = views(body@);
        body.push(all[i].clone());
        proof {
            assert(views(body@) =~= before.push(av[i as int]));
            assert(views(body@) + fenced_body(av, i + 1) =~= before + (seq![av[i as int]]
                + fenced_body(av, i + 1)));
        }
        i += 1;
        proof {
            if i >= n {
                assert(views(body@) + fenced_body(av, i as int) =~= views(body@));
            }
        }
    }
    proof {
        if n <= 1 {
            assert(views(body@) =~= fenced_body(av, 1));
        }
    }
    join(&body, "\n")
}

/// Whether a whole text is a JSON object.
pub open spec fn is_object_text(s: Seq<char>) -> bool {
    s.len() > 0 && s[0] == '{' && parsed(s) is Ok
}

fn check_object_text(s: &str) -> (r: bool)
    ensures
        r == is_object_text(s@),
{
    s.unicode_len() > 0 && s.get_char(0) == '{' && parse(s).is_ok()
}

/// The text of the JSON object in a reply: the reply itself, what a block of
/// code holds, or the first object among other text.
pub open spec fn object_text(raw: Seq<char>) -> Option<Seq<char>> {
    let t = trimmed(raw);
    let c = trimmed(unfenced(t));
    if t.len() == 0 {
        None
    } else if is_object_text(t) {
        Some(t)
    } else if is_object_text(c) {
        Some(c)
    } else {
        braced_object(c)
    }
}

pub fn extract_json_object(raw: &str) -> (r: Option<String>)
    ensures
        opt_view(r) == object_text(raw@),
{
    let t = trim(raw);
    if t.unicode_len() == 0 {
        return None;
    }
    if check_object_text(t) {
        return Some(t.to_owned());
    }
    let body = strip_code_fence(t);
    let c = trim(body.as_str());
    if check_object_text(c) {
        return Some(c.to_owned());
    }
    first_braced_object(c)
}

/// The fields by which a patch is known.
pub const KNOWN_FIELDS: [&'static str; 9] = [
    "live",
    "overview",
    "summary",
    "keyPoints",
    "key_points",
    "decisions",
    "actionItems",
    "action_items",
    "topics",
];

/// Fields in which models are known to wrap a patch.
pub const WRAPPING_FIELDS: [&'static str; 5] = ["result", "data", "output", "minutes", "summary"];

/// Whether a field shows that its object is the patch. A summary that is an
/// object itself is a wrapping, not a text.
pub open spec fn known_field(f: (Seq<char>, bool)) -> bool {
    &&& exists|i: int| 0 <= i < 9 && (#[trigger] KNOWN_FIELDS@[i])@ == f.0
    &&& !(f.0 == "summary"@ && f.1)
}

/// The fields of an object by name, with whether each is an object itself.
pub open spec fn has_field(fields: Seq<(Seq<char>, bool)>, key: Seq<char>, object: bool) -> bool {
    fields.contains((key, object))
}

/// The first of the wrapping fields from the `i`-th on that is an object.
pub open spec fn wrapping_field(fields: Seq<(Seq<char>, bool)>, i: int) -> Option<Seq<char>>
    decreases 5 - i,
{
    if i < 0 || i >= 5 {
        None
    } else if has_field(fields, WRAPPING_FIELDS@[i]@, true) {
        Some(WRAPPING_FIELDS@[i]@)
    } else {
        wrapping_field(fields, i + 1)
    }
}

/// The field of an object in which the patch is, if it is not the object
/// itself.
pub open spec fn nested_field(fields: Seq<(Seq<char>, bool)>) -> Option<Seq<char>> {
    if exists|i: int| 0 <= i < fields.len() && known_field(#[trigger] fields[i]) {
        None
    } else if fields.len() == 1 && fields[0].1 {
        Some(fields[0].0)
    } else {
        wrapping_field(fields, 0)
    }
}

pub open spec fn field_views(fields: Seq<(String, bool)>) -> Seq<(Seq<char>, bool)> {
    fields.map_values(|f: (String, bool)| (f.0@, f.1))
}

fn is_known_field(key: &str, object: bool) -> (r: bool)
    ensures
        r == known_field((key@, object)),
{
    if object && same(key, "summary") {
        return false;
    }
    let mut i: usize = 0;
    while i < 9
        invariant
            i <= 9,
            !(key@ == "summary"@ && object),
            forall|k: int| 0 <= k < i ==> (#[trigger] KNOWN_FIELDS@[k])@ != key@,
        decreases 9 - i,
    {
        if same(KNOWN_FIELDS[i], key) {
            proof {
                assert(KNOWN_FIELDS@[i as int]@ == key@);
            }
            return true;
        }
        i += 1;
    }
    false
}

fn holds_object_field(fields: &Vec<(String, bool)>, key: &str) -> (r: bool)
    ensures
        r == has_field(field_views(fields@), key@, true),
{
    let n: usize = fields.len();
    let mut i: usize = 0;
    while i < n
        invariant
            i <= n == fields@.len(),
            forall|k: int| 0 <= k < i ==> #[trigger] field_views(fields@)[k] != (key@, true),
        decreases n - i,
    {
        if fields[i].1 && same(fields[i].0.as_str(), key) {
            proof {
                assert(field_views(fields@)[i as int] == (key@, true));
            }
            return true;
        }
        i += 1;
    }
    false
}

/// Which field of an object with these fields holds the patch, if it is not the
/// object itself.
pub fn nested_key(fields: &Vec<(String, bool)>) -> (r: Option<String>)
    ensures
        opt_view(r) == nested_field(field_views(fields@)),
{
    let ghost fv = field_views(fields@);
    let n: usize = fields.len();
    let mut i: usize = 0;
    while i < n
        invariant
            i <= n == fields@.len(),
            fv == field_views(fields@),
            forall|k: int| 0 <= k < i ==> !known_field(#[trigger] fv[k]),
        decreases n - i,
    {
        if is_known_field(fields[i].0.as_str(), fields[i].1) {
            proof {
                assert(known_field(fv[i as int]));
            }
            return None;
        }
        i += 1;
    }
    if n == 1 && fields[0].1 {
        return Some(fields[0].0.clone());
    }
    let mut w: usize = 0;
    assert(nested_field(fv) == wrapping_field(fv, 0));
    while w < 5
        invariant
            w <= 5,
            fv == field_views(fields@),
            nested_field(fv) == wrapping_field(fv, w as int),
        decreases 5 - w,
    {
        if holds_object_field(fields, WRAPPING_FIELDS[w]) {
            return Some(WRAPPING_FIELDS[w].to_owned());
        }
        w += 1;
    }
    None
}

/// The fields of a record, listed.
pub open spec fn lists_fields(m: Map<Seq<char>, Json>, fields: Seq<(Seq<char>, bool)>) -> bool {
    let names = fields.map_values(|f: (Seq<char>, bool)| f.0);
    &&& names.no_duplicates()
    &&& names.to_set() == m.dom()
    &&& forall|i: int|
        0 <= i < fields.len() ==> (#[trigger] fields[i]).1 == (m[fields[i].0] is Record)
}

/// `inner` is where the patch is in `outer`: in a field that [`nested_field`]
/// picks, or the whole.
pub open spec fn unwraps_to(outer: Json, inner: Json) -> bool {
    match outer {
        Json::Record(m) => exists|fields: Seq<(Seq<char>, bool)>|
            #[trigger] lists_fields(m, fields) && match nested_field(fields) {
                Some(key) => field(outer, key) == Some(inner),
                None => inner == outer,
            },
        _ => inner == outer,
    }
}

/// Goes down to the object that holds the patch, where a model wrapped it.
pub fn unwrap_nested(value: serde_json::Value) -> (r: serde_json::Value)
    ensures
        unwraps_to(json_of(value), json_of(r)),
{
    let names = match keys(&value) {
        Some(k) => k,
        None => {
            return value;
        },
    };
    let ghost m = json_of(value)->Record_0;
    let n: usize = names.len();
    let mut fields: Vec<(String, bool)> = Vec::new();
    let mut i: usize = 0;
    while i < n
        invariant
            i <= n == names@.len(),
            json_of(value) == Json::Record(m),
            views(names@).to_set() == m.dom(),
            fields@.len() == i,
            forall|k: int|
                0 <= k < i ==> (#[trigger] fields@[k]).0@ == names@[k]@ && fields@[k].1 == (
                m[names@[k]@] is Record),
        decreases n - i,
    {
        proof {
            assert(views(names@)[i as int] == names@[i as int]@);
            assert(views(names@).contains(names@[i as int]@));
            assert(views(names@).to_set().contains(names@[i as int]@));
        }
        let object: bool = match get(&value, names[i].as_str()) {
            Some(x) => keys(x).is_some(),
            None => false,
        };
        fields.push((names[i].clone(), object));
        i += 1;
    }
    let ghost fv = field_views(fields@);
    proof {
        let listed = fv.map_values(|f: (Seq<char>, bool)| f.0);
        assert(listed =~= views(names@));
        assert(lists_fields(m, fv)) by {
            assert forall|k: int| 0 <= k < fv.len() implies (#[trigger] fv[k]).1 == (
            m[fv[k].0] is Record) by {
                assert(fields@[k].0@ == names@[k]@);
            }
        }
    }
    match nested_key(&fields) {
        Some(key) => match get(&value, key.as_str()) {
            Some(x) => x.clone(),
            None => {
                proof {
                    lemma_nested_field_is_listed(fv);
                    let k = choose|k: int| 0 <= k < fv.len() && (#[trigger] fv[k]).0 == key@;
                    let listed = fv.map_values(|f: (Seq<char>, bool)| f.0);
                    assert(listed[k] == key@);
                    assert(listed.contains(key@));
                    assert(listed.to_set().contains(key@));
                }
                value
            },
        },
        None => value,
    }
}

proof fn lemma_wrapping_field_is_listed(fields: Seq<(Seq<char>, bool)>, i: int)
    requires
        wrapping_field(fields, i) is Some,
    ensures
        exists|k: int| 0 <= k < fields.len() && (#[trigger] fields[k]).0 == wrapping_field(fields, i)->0,
    decreases 5 - i,
{
    if has_field(fields, WRAPPING_FIELDS@[i]@, true) {
        let k = choose|k: int| 0 <= k < fields.len() && fields[k] == (WRAPPING_FIELDS@[i]@, true);
        assert(fields[k].0 == wrapping_field(fields, i)->0);
    } else {
        lemma_wrapping_field_is_listed(fields, i + 1);
    }
}

proof fn lemma_nested_field_is_listed(fields: Seq<(Seq<char>, bool)>)
    requires
        nested_field(fields) is Some,
    ensures
        exists|k: int| 0 <= k < fields.len() && (#[trigger] fields[k]).0 == nested_field(fields)->0,
{
    if fields.len() == 1 && fields[0].1 {
        assert(fields[0].0 == nested_field(fields)->0);
    } else {
        lemma_wrapping_field_is_listed(fields, 0);
    }
}

/// The patch in a model's reply, or what to tell where there is none.
pub fn parse_summary_patch(raw: &str) -> (r: AppResult<SummaryPatch>)
    ensures
        match object_text(raw@) {
            None => r matches Err(e) && e@ == ErrorView::Ai(
                "模型没有按要求返回 JSON 纪要。原始输出："@ + truncated(trimmed(raw@), 300),
            ),
            Some(text) => match parsed(text) {
                Err(why) => r matches Err(e) && e@ == ErrorView::Ai(
                    "模型返回的 JSON 解析失败："@ + why,
                ),
                Ok(j) => r matches Ok(p) && exists|inner: Json| #[trigger]
                    unwraps_to(j, inner) && p@ == patch_in(inner),
            },
        },
{
    let text = match extract_json_object(raw) {
        Some(t) => t,
        None => {
            let mut m = "模型没有按要求返回 JSON 纪要。原始输出：".to_owned();
            m.append(truncate_chars(trim(raw), 300).as_str());
            return Err(AppError::Ai(m));
        },
    };
    match parse(text.as_str()) {
        Ok(v) => Ok(read_patch(&unwrap_nested(v))),
        Err(why) => {
            let mut m = "模型返回的 JSON 解析失败：".to_owned();
            m.append(why.as_str());
            Err(AppError::Ai(m))
        },
    }
}

/// Collapsing white space keeps every word, and the words apart.
pub proof fn law_collapsing_keeps_the_words(s: Seq<char>)
    ensures
        words_of(collapsed(s)) == words_of(s),
        collapsed(s).filter(|c: char| !space(c)) == s.filter(|c: char| !space(c)),
{
    law_joined_words_are_read_back(s);
    law_words_hold_all_but_space(s);
}

/// An item that begins with a word is kept word for word; marks and numbers before it
/// come off.
pub proof fn law_only_marks_come_off_items(s: Seq<char>, mark: char, digit: char)
    requires
        s.len() > 0,
        !space(s[0]),
        !space(s.last()),
        !bullet(s[0]),
        !ascii_digit(s[0]),
        !after_number(s[0]),
        mark == '-' || mark == '*' || mark == '•' || mark == '·',
        ascii_digit(digit),
    ensures
        plain_item(s) == collapsed(s),
        plain_item(seq![mark, ' '] + s) == collapsed(s),
        plain_item(seq![digit, '.', ' '] + s) == collapsed(s),
        plain_item(seq![digit, '、'] + s) == collapsed(s),
{
    let e = Seq::<char>::empty();
    let b = |c: char| bullet(c);
    let d = |c: char| ascii_digit(c);
    let n = |c: char| after_number(c);
    law_only_outer_space_is_trimmed(e, s, e);
    assert(e + s + e =~= s);
    assert(!space(mark) && !space(digit) && !bullet(digit));
    let r1 = seq![' '] + s;
    let t1 = seq![mark] + r1;
    assert(seq![mark, ' '] + s =~= t1);
    law_only_outer_space_is_trimmed(e, t1, e);
    assert(e + t1 + e =~= t1);
    lemma_strip_one(mark, r1, b);
    lemma_strip_one(' ', s, b);
    lemma_strip_one(' ', s, d);
    lemma_strip_one(' ', s, n);
    let r2 = seq!['.'] + r1;
    let t2 = seq![digit] + r2;
    assert(seq![digit, '.', ' '] + s =~= t2);
    law_only_outer_space_is_trimmed(e, t2, e);
    assert(e + t2 + e =~= t2);
    lemma_strip_one(digit, r2, b);
    lemma_strip_one(digit, r2, d);
    lemma_strip_one('.', r1, d);
    lemma_strip_one('.', r1, n);
    let r3 = seq!['、'] + s;
    let t3 = seq![digit] + r3;
    assert(seq![digit, '、'] + s =~= t3);
    law_only_outer_space_is_trimmed(e, t3, e);
    assert(e + t3 + e =~= t3);
    lemma_strip_one(digit, r3, b);
    lemma_strip_one(digit, r3, d);
    lemma_strip_one('、', s, d);
    lemma_strip_one('、', s, n);
}

proof fn lemma_strip_one(c: char, t: Seq<char>, p: spec_fn(char) -> bool)
    ensures
        p(c) ==> strip_left(seq![c] + t, p) == strip_left(t, p),
        !p(c) ==> strip_left(seq![c] + t, p) == seq![c] + t,
{
    assert((seq![c] + t).drop_first() =~= t);
}

/// Minutes in one text become a list line by line: a line that begins with a word gets
/// a mark, headings and quotations stay as they are, and empty lines go.
pub proof fn law_minutes_become_a_list_line_by_line(lines: Seq<Seq<char>>, line: Seq<char>)
    requires
        line.len() > 0,
        !space(line[0]),
        !space(line.last()),
    ensures
        !bullet(line[0]) && line[0] != '#' && line[0] != '>' ==> listed_lines(lines.push(line))
            == listed_lines(lines).push("- "@ + line),
        line[0] == '#' || line[0] == '>' ==> listed_lines(lines.push(line)) == listed_lines(
            lines,
        ).push(line),
        listed_lines(lines.push(Seq::empty())) == listed_lines(lines),
{
    let e = Seq::<char>::empty();
    law_only_outer_space_is_trimmed(e, line, e);
    assert(e + line + e =~= line);
    assert(lines.push(line).drop_last() =~= lines);
    assert(lines.push(e).drop_last() =~= lines);
    law_only_outer_space_is_trimmed(e, e, e);
    assert(e + e + e =~= e);
}

/// A reply that is a JSON object is taken as it is, but for white space around it.
pub proof fn law_objects_are_taken_as_they_are(raw: Seq<char>)
    ensures
        is_object_text(trimmed(raw)) ==> object_text(raw) == Some(trimmed(raw)),
        trimmed(raw).len() == 0 ==> object_text(raw) is None,
        trimmed(raw).len() > 0 && !is_object_text(trimmed(raw)) && is_object_text(
            trimmed(unfenced(trimmed(raw))),
        ) ==> object_text(raw) == Some(trimmed(unfenced(trimmed(raw)))),
{
}

/// Where other text stands around an object, the object is found, from its first brace
/// to the brace that closes it; braces within quotation marks do not count.
pub proof fn law_objects_are_found_among_other_text(
    before: Seq<char>,
    a: Seq<char>,
    quoted: Seq<char>,
    b: Seq<char>,
    after: Seq<char>,
)
    requires
        !before.contains('{'),
        forall|i: int|
            0 <= i < a.len() ==> (#[trigger] a[i]) != '"' && a[i] != '{' && a[i] != '}',
        forall|i: int| 0 <= i < quoted.len() ==> (#[trigger] quoted[i]) != '"' && quoted[i] != '\\',
        forall|i: int|
            0 <= i < b.len() ==> (#[trigger] b[i]) != '"' && b[i] != '{' && b[i] != '}',
    ensures
        ({
            let object = seq!['{'] + a + seq!['"'] + quoted + seq!['"'] + b + seq!['}'];
            braced_object(before + object + after) == Some(object)
        }),
        braced_object(before + (seq!['{'] + a + seq!['}']) + after) == Some(
            seq!['{'] + a + seq!['}'],
        ),
{
    let object = seq!['{'] + a + seq!['"'] + quoted + seq!['"'] + b + seq!['}'];
    let s = before + object + after;
    let n = before.len() as int;
    lemma_first_brace(before, object + after);
    assert(before + (object + after) =~= s);
    assert(s[n] == '{');
    let i1 = n + 1;
    let i2 = i1 + a.len();
    let i3 = i2 + 1 + quoted.len();
    let i4 = i3 + 1 + b.len();
    assert forall|i: int| i1 <= i < i2 implies (#[trigger] s[i]) != '"' && s[i] != '{' && s[i]
        != '}' by {
        assert(s[i] == a[i - i1]);
    }
    lemma_plain_skipped(s, i1, i2, 1);
    assert(s[i2] == '"');
    assert forall|i: int| i2 + 1 <= i < i3 implies (#[trigger] s[i]) != '"' && s[i] != '\\' by {
        assert(s[i] == quoted[i - i2 - 1]);
    }
    lemma_quoted_skipped(s, i2 + 1, i3, 1);
    assert(s[i3] == '"');
    assert(object_end(s, i3, 1, true, false) == object_end(s, i3 + 1, 1, false, false));
    assert forall|i: int| i3 + 1 <= i < i4 implies (#[trigger] s[i]) != '"' && s[i] != '{' && s[i]
        != '}' by {
        assert(s[i] == b[i - i3 - 1]);
    }
    lemma_plain_skipped(s, i3 + 1, i4, 1);
    assert(s[i4] == '}');
    assert(object_end(s, i4, 1, false, false) == Some(i4 + 1));
    assert(s.subrange(n, i4 + 1) =~= object);
    lemma_small_object(before, a, after);
}

proof fn lemma_small_object(before: Seq<char>, a: Seq<char>, after: Seq<char>)
    requires
        !before.contains('{'),
        forall|i: int|
            0 <= i < a.len() ==> (#[trigger] a[i]) != '"' && a[i] != '{' && a[i] != '}',
    ensures
        braced_object(before + (seq!['{'] + a + seq!['}']) + after) == Some(
            seq!['{'] + a + seq!['}'],
        ),
{
    let n = before.len() as int;
    let i1 = n + 1;
    let i2 = i1 + a.len();
    let small = seq!['{'] + a + seq!['}'];
    let t = before + small + after;
    lemma_first_brace(before, small + after);
    assert(before + (small + after) =~= t);
    assert(t[n] == '{');
    assert forall|i: int| i1 <= i < i2 implies (#[trigger] t[i]) != '"' && t[i] != '{' && t[i]
        != '}' by {
        assert(t[i] == a[i - i1]);
    }
    lemma_plain_skipped(t, i1, i2, 1);
    assert(t[i2] == '}');
    assert(object_end(t, i2, 1, false, false) == Some(i2 + 1));
    assert(t.subrange(n, i2 + 1) =~= small);
}

proof fn lemma_first_brace(before: Seq<char>, rest: Seq<char>)
    requires
        !before.contains('{'),
        rest.len() > 0,
        rest[0] == '{',
    ensures
        first_index(before + rest, '{') == before.len(),
    decreases before.len(),
{
    if before.len() == 0 {
        assert(before + rest =~= rest);
    } else {
        let tail = before.drop_first();
        assert(before.contains(before[0]));
        assert((before + rest).drop_first() =~= tail + rest);
        assert forall|i: int| 0 <= i < tail.len() implies tail[i] != '{' by {
            assert(before.contains(before[i + 1]));
        }
        lemma_first_brace(tail, rest);
    }
}

proof fn lemma_plain_skipped(s: Seq<char>, i: int, j: int, depth: int)
    requires
        0 <= i <= j <= s.len(),
        forall|k: int|
            i <= k < j ==> (#[trigger] s[k]) != '"' && s[k] != '{' && s[k] != '}',
    ensures
        object_end(s, i, depth, false, false) == object_end(s, j, depth, false, false),
    decreases j - i,
{
    if i < j {
        assert(s[i] != '"' && s[i] != '{' && s[i] != '}');
        lemma_plain_skipped(s, i + 1, j, depth);
    }
}

proof fn lemma_quoted_skipped(s: Seq<char>, i: int, j: int, depth: int)
    requires
        0 <= i <= j <= s.len(),
        forall|k: int| i <= k < j ==> (#[trigger] s[k]) != '"' && s[k] != '\\',
    ensures
        object_end(s, i, depth, true, false) == object_end(s, j, depth, true, false),
    decreases j - i,
{
    if i < j {
        assert(s[i] != '"' && s[i] != '\\');
        lemma_quoted_skipped(s, i + 1, j, depth);
    }
}

/// Of a block of code the lines between its fences are taken, whatever they hold.
pub proof fn law_lines_between_fences_are_taken(lines: Seq<Seq<char>>, k: int)
    requires
        1 <= k < lines.len(),
        forall|i: int|
            1 <= i < k ==> !"```"@.is_prefix_of(
                strip_left(#[trigger] lines[i], |c: char| space(c)),
            ),
        "```"@.is_prefix_of(strip_left(lines[k], |c: char| space(c))),
    ensures
        fenced_body(lines, 1) == lines.subrange(1, k),
{
    lemma_fenced_body(lines, 1, k);
}

proof fn lemma_fenced_body(lines: Seq<Seq<char>>, from: int, k: int)
    requires
        1 <= from <= k < lines.len(),
        forall|i: int|
            1 <= i < k ==> !"```"@.is_prefix_of(
                strip_left(#[trigger] lines[i], |c: char| space(c)),
            ),
        "```"@.is_prefix_of(strip_left(lines[k], |c: char| space(c))),
    ensures
        fenced_body(lines, from) == lines.subrange(from, k),
    decreases k - from,
{
    if from < k {
        lemma_fenced_body(lines, from + 1, k);
        assert(!"```"@.is_prefix_of(strip_left(lines[from], |c: char| space(c))));
        assert(seq![lines[from]] + lines.subrange(from + 1, k) =~= lines.subrange(from, k));
    } else {
        assert(lines.subrange(from, k) =~= Seq::empty());
    }
}

/// A reply that has a part of the minutes is the patch itself; one that wraps it in a
/// single object, or under a name used for that, is gone down into.
pub proof fn law_wrapped_patches_are_unwrapped(fields: Seq<(Seq<char>, bool)>, i: int, key: Seq<char>)
    ensures
        0 <= i < fields.len() && (fields[i].0 == "decisions"@ || fields[i].0 == "keyPoints"@
            || fields[i].0 == "live"@ || fields[i].0 == "overview"@ || fields[i].0 == "topics"@)
            ==> nested_field(fields) is None,
        fields == seq![(key, true)] && !known_field((key, true)) ==> nested_field(fields) == Some(
            key,
        ),
        (forall|k: int| 0 <= k < fields.len() ==> !known_field(#[trigger] fields[k]))
            && fields.len() > 1 && fields.contains(("result"@, true)) ==> nested_field(fields)
            is Some,
{
    reveal_strlit("decisions");
    reveal_strlit("keyPoints");
    reveal_strlit("live");
    reveal_strlit("overview");
    reveal_strlit("topics");
    reveal_strlit("summary");
    assert("summary"@.len() == 7 && "decisions"@.len() == 9 && "keyPoints"@.len() == 9);
    assert("live"@.len() == 4 && "overview"@.len() == 8 && "topics"@.len() == 6);
    if 0 <= i < fields.len() && (fields[i].0 == "decisions"@ || fields[i].0 == "keyPoints"@
        || fields[i].0 == "live"@ || fields[i].0 == "overview"@ || fields[i].0 == "topics"@) {
        assert(KNOWN_FIELDS@[0]@ == "live"@);
        assert(KNOWN_FIELDS@[1]@ == "overview"@);
        assert(KNOWN_FIELDS@[3]@ == "keyPoints"@);
        assert(KNOWN_FIELDS@[5]@ == "decisions"@);
        assert(KNOWN_FIELDS@[8]@ == "topics"@);
        assert(known_field(fields[i]));
    }
    if fields == seq![(key, true)] && !known_field((key, true)) {
        assert(fields[0] == (key, true));
    }
    if fields.contains(("result"@, true)) {
        lemma_result_wraps(fields);
    }
}

proof fn lemma_result_wraps(fields: Seq<(Seq<char>, bool)>)
    requires
        fields.contains(("result"@, true)),
    ensures
        wrapping_field(fields, 0) is Some,
{
    reveal_with_fuel(wrapping_field, 6);
    assert(WRAPPING_FIELDS@[0]@ == "result"@ || WRAPPING_FIELDS@[1]@ == "result"@);
}

/// What [`apply_patch_at`] leaves behind: every part that the reply gives something for
/// is the reply's, cleaned; every part that it gives nothing for is as it was; and it
/// says that the minutes changed if and only if one of them did.
pub proof fn law_merging_takes_what_the_reply_gives(
    state: &mut SummaryState,
    patch: SummaryPatch,
    model: &str,
    covered_until_ms: i64,
    usage: &TokenUsage,
    now: i64,
    changed: bool,
)
    requires
        call_ensures(apply_patch_at, (state, patch, model, covered_until_ms, usage, now), changed),
    ensures
        patch.decisions matches Some(d) ==> cleaned_list(views(d@), 20).len() > 0 ==> views(
            final(state).decisions@,
        ) == cleaned_list(views(d@), 20),
        patch.key_points matches Some(d) ==> cleaned_list(views(d@), 20).len() > 0 ==> views(
            final(state).key_points@,
        ) == cleaned_list(views(d@), 20),
        patch.topics matches Some(d) ==> cleaned_list(views(d@), 8).len() > 0 ==> views(
            final(state).topics@,
        ) == cleaned_list(views(d@), 8),
        patch.live matches Some(t) ==> collapsed(t@).len() > 0 ==> final(state).live@ == collapsed(
            t@,
        ),
        patch.overview matches Some(t) ==> 0 < collapsed(t@).len() <= 2_000 ==> final(state).overview@
            == collapsed(t@),
        patch.decisions is None ==> views(final(state).decisions@) == views(old(state).decisions@),
        patch.key_points is None ==> views(final(state).key_points@) == views(
            old(state).key_points@,
        ),
        patch.topics is None ==> views(final(state).topics@) == views(old(state).topics@),
        patch.live is None ==> final(state).live@ == old(state).live@,
        patch.overview is None ==> final(state).overview@ == old(state).overview@,
        patch.action_items is None ==> item_views(final(state).action_items@) == item_views(
            old(state).action_items@,
        ),
        patch.sections is None ==> section_views(final(state).sections@) == section_views(
            old(state).sections@,
        ),
        views(final(state).decisions@) != views(old(state).decisions@) ==> changed,
        views(final(state).key_points@) != views(old(state).key_points@) ==> changed,
        final(state).live@ != old(state).live@ ==> changed,
        final(state).covered_until_ms >= covered_until_ms,
        final(state).covered_until_ms >= old(state).covered_until_ms,
        old(state).revision < u32::MAX ==> final(state).revision == old(state).revision + 1,
        final(state).error is None,
        final(state).updated_at == now,
{
    let s = old(state)@;
    let p = patch@;
    let r = final(state)@;
    law_latest_reply_is_what_the_minutes_say(s, p, model@, covered_until_ms, *usage, now);
    assert(r == patched(s, p, model@, covered_until_ms, *usage, now));
    assert(r.decisions == views(final(state).decisions@));
    assert(r.error == opt_view(final(state).error));
}

/// Things to be done and sections are taken from the reply too.
pub proof fn law_merging_takes_items_and_sections(
    state: &mut SummaryState,
    patch: SummaryPatch,
    model: &str,
    covered_until_ms: i64,
    usage: &TokenUsage,
    now: i64,
    changed: bool,
)
    requires
        call_ensures(apply_patch_at, (state, patch, model, covered_until_ms, usage, now), changed),
    ensures
        patch.action_items matches Some(d) ==> {
            let said = d@.map_values(|a: ActionItemRaw| item_of(a)).filter(
                |a: ItemView| a.text.len() > 0,
            );
            0 < said.len() <= 20 ==> item_views(final(state).action_items@) == said
        },
        patch.sections matches Some(d) ==> {
            let all = merged_sections(raw_views(d@));
            0 < all.len() <= 40 ==> section_views(final(state).sections@) == all
        },
{
    law_latest_reply_is_what_the_minutes_say(
        old(state)@,
        patch@,
        model@,
        covered_until_ms,
        *usage,
        now,
    );
    assert(final(state)@ == patched(
        old(state)@,
        patch@,
        model@,
        covered_until_ms,
        *usage,
        now,
    ));
}

/// A block of code is freed of its first line and of all from its closing fence on; any
/// other text stays as it is.
pub proof fn law_fences_are_taken_off(s: Seq<char>, k: int)
    ensures
        !"```"@.is_prefix_of(s) ==> unfenced(s) == s,
        "```"@.is_prefix_of(s) && 1 <= k < lines_of(s).len() && (forall|i: int|
            1 <= i < k ==> !"```"@.is_prefix_of(
                strip_left(#[trigger] lines_of(s)[i], |c: char| space(c)),
            )) && "```"@.is_prefix_of(strip_left(lines_of(s)[k], |c: char| space(c)))
            ==> unfenced(s) == joined(lines_of(s).subrange(1, k), "\n"@),
{
    if 1 <= k < lines_of(s).len() && (forall|i: int|
        1 <= i < k ==> !"```"@.is_prefix_of(
            strip_left(#[trigger] lines_of(s)[i], |c: char| space(c)),
        )) && "```"@.is_prefix_of(strip_left(lines_of(s)[k], |c: char| space(c))) {
        law_lines_between_fences_are_taken(lines_of(s), k);
    }
}

} // verus!
