//! What a model's answer says of the minutes.
//!
//! Models differ in what they call a field, and some write a text where a list is
//! wanted. A field that is missing or of a wrong kind is left out; the others
//! count all the same.

use vstd::prelude::*;
use vstd::string::*;
use crate::ai::summarizer::ActionItem;
use crate::ai::summarizer::ActionItemRaw;
use crate::ai::summarizer::ItemView;
use crate::ai::summarizer::PatchView;
use crate::ai::summarizer::RawSectionView;
use crate::ai::summarizer::SectionRaw;
use crate::ai::summarizer::SummaryPatch;
use crate::ai::summarizer::item_of;
use crate::ai::summarizer::opt_views;
use crate::ai::summarizer::raw_views;
use crate::json::Json;
use crate::json::as_array;
use crate::json::as_str;
use crate::json::as_i64;
use crate::json::field;
use crate::json::get;
use crate::json::get_text;
use crate::json::is_null;
use crate::json::json_of;
use crate::json::jsons_of;
use crate::json::keys;
use crate::json::text_field;
use crate::json::text_of;
use crate::text::opt_view;
use crate::text::trimmed;
use crate::text::views;

verus! {

// ---------------------------------------------------------------------------
// Names of fields: the proper one first
// ---------------------------------------------------------------------------

pub const LIVE_NAMES: [&'static str; 4] = ["live", "live_summary", "liveSummary", "recent"];

pub const OVERVIEW_NAMES: [&'static str; 3] = ["overview", "abstract", "summaryOverview"];

pub const SUMMARY_NAMES: [&'static str; 4] = ["summary", "summaryMarkdown", "minutes", "notes"];

pub const SECTIONS_NAMES: [&'static str; 4] = ["sections", "outline", "blocks", "chapters"];

pub const KEY_POINTS_NAMES: [&'static str; 5] = [
    "keyPoints",
    "key_points",
    "keypoints",
    "points",
    "highlights",
];

pub const DECISIONS_NAMES: [&'static str; 3] = ["decisions", "decisions_made", "conclusions"];

pub const ITEMS_NAMES: [&'static str; 5] = [
    "actionItems",
    "action_items",
    "todos",
    "tasks",
    "actionItemsList",
];

pub const TOPICS_NAMES: [&'static str; 3] = ["topics", "topic", "current_topics"];

pub const TITLE_NAMES: [&'static str; 5] = ["title", "heading", "name", "topic", "segment"];

pub const POINTS_NAMES: [&'static str; 5] = ["points", "items", "bullets", "content", "details"];

pub const UNTIL_NAMES: [&'static str; 3] = ["untilMs", "endMs", "at"];

/// The field under the first of the names, from the `i`-th on, that is there and
/// not null.
pub open spec fn named_field(j: Json, names: Seq<&'static str>, i: int) -> Option<Json>
    decreases names.len() - i,
{
    if i < 0 || i >= names.len() {
        None
    } else {
        match field(j, names[i]@) {
            Some(x) => if x is Null {
                named_field(j, names, i + 1)
            } else {
                Some(x)
            },
            None => named_field(j, names, i + 1),
        }
    }
}

/// What is read from a field, if it is there.
pub open spec fn read_from<T>(x: Option<Json>, read: spec_fn(Json) -> Option<T>) -> Option<T> {
    match x {
        Some(x) => read(x),
        None => None,
    }
}

// ---------------------------------------------------------------------------
// Kinds of fields
// ---------------------------------------------------------------------------

/// The texts in a list, in order.
pub open spec fn texts_among(list: Seq<Json>) -> Seq<Seq<char>>
    decreases list.len(),
{
    if list.len() == 0 {
        Seq::empty()
    } else {
        match text_of(list.last()) {
            Some(t) => texts_among(list.drop_last()).push(t),
            None => texts_among(list.drop_last()),
        }
    }
}

/// A list of texts; a text by itself is a list of one.
pub open spec fn texts_in(x: Json) -> Option<Seq<Seq<char>>> {
    match x {
        Json::List(list) => Some(texts_among(list)),
        Json::Text(t) => Some(seq![t]),
        _ => None,
    }
}

/// The text of a field, empty if there is none.
pub open spec fn text_or_empty(j: Json, key: Seq<char>) -> Seq<char> {
    match text_field(j, key) {
        Some(t) => t,
        None => Seq::empty(),
    }
}

/// Something to be done: a text, or a record with a text.
pub open spec fn item_in(x: Json) -> Option<ItemView> {
    match x {
        Json::Text(t) => Some(
            ItemView { text: trimmed(t), owner: Seq::empty(), due: Seq::empty() },
        ),
        Json::Record(_) => match text_field(x, "text"@) {
            Some(t) => Some(
                ItemView {
                    text: trimmed(t),
                    owner: trimmed(text_or_empty(x, "owner"@)),
                    due: trimmed(text_or_empty(x, "due"@)),
                },
            ),
            None => None,
        },
        _ => None,
    }
}

pub open spec fn items_among(list: Seq<Json>) -> Seq<ItemView>
    decreases list.len(),
{
    if list.len() == 0 {
        Seq::empty()
    } else {
        match item_in(list.last()) {
            Some(t) => items_among(list.drop_last()).push(t),
            None => items_among(list.drop_last()),
        }
    }
}

/// Things to be done; one by itself is a list of one.
pub open spec fn items_in(x: Json) -> Option<Seq<ItemView>> {
    match x {
        Json::List(list) => Some(items_among(list)),
        _ => match item_in(x) {
            Some(i) => Some(seq![i]),
            None => None,
        },
    }
}

/// A time that a 64-bit number can hold.
pub open spec fn time_in(x: Json) -> Option<int> {
    match x {
        Json::Number(Some(n)) => if i64::MIN <= n <= i64::MAX {
            Some(n)
        } else {
            None
        },
        _ => None,
    }
}

/// A section.
pub open spec fn section_in(x: Json) -> Option<RawSectionView> {
    match x {
        Json::Record(_) => Some(
            RawSectionView {
                title: match read_from(named_field(x, TITLE_NAMES@, 0), |y: Json| text_of(y)) {
                    Some(t) => t,
                    None => Seq::empty(),
                },
                points: match read_from(named_field(x, POINTS_NAMES@, 0), |y: Json| texts_in(y)) {
                    Some(p) => p,
                    None => Seq::empty(),
                },
                until: match read_from(named_field(x, UNTIL_NAMES@, 0), |y: Json| time_in(y)) {
                    Some(u) => u,
                    None => 0,
                },
            },
        ),
        _ => None,
    }
}

pub open spec fn sections_among(list: Seq<Json>) -> Seq<RawSectionView>
    decreases list.len(),
{
    if list.len() == 0 {
        Seq::empty()
    } else {
        match section_in(list.last()) {
            Some(t) => sections_among(list.drop_last()).push(t),
            None => sections_among(list.drop_last()),
        }
    }
}

/// Sections in a list.
pub open spec fn sections_in(x: Json) -> Option<Seq<RawSectionView>> {
    match x {
        Json::List(list) => Some(sections_among(list)),
        _ => None,
    }
}

/// The patch that an object is.
pub open spec fn patch_in(j: Json) -> PatchView {
    PatchView {
        live: read_from(named_field(j, LIVE_NAMES@, 0), |x: Json| text_of(x)),
        overview: read_from(named_field(j, OVERVIEW_NAMES@, 0), |x: Json| text_of(x)),
        summary: read_from(named_field(j, SUMMARY_NAMES@, 0), |x: Json| text_of(x)),
        sections: read_from(named_field(j, SECTIONS_NAMES@, 0), |x: Json| sections_in(x)),
        key_points: read_from(named_field(j, KEY_POINTS_NAMES@, 0), |x: Json| texts_in(x)),
        decisions: read_from(named_field(j, DECISIONS_NAMES@, 0), |x: Json| texts_in(x)),
        action_items: read_from(named_field(j, ITEMS_NAMES@, 0), |x: Json| items_in(x)),
        topics: read_from(named_field(j, TOPICS_NAMES@, 0), |x: Json| texts_in(x)),
    }
}

// ---------------------------------------------------------------------------
// Reading
// ---------------------------------------------------------------------------

fn find_field<'a>(v: &'a serde_json::Value, names: &[&'static str]) -> (r: Option<
    &'a serde_json::Value,
>)
    ensures
        match r {
            Some(x) => named_field(json_of(*v), names@, 0) == Some(json_of(*x)),
            None => named_field(json_of(*v), names@, 0) is None,
        },
{
    let n: usize = names.len();
    let mut i: usize = 0;
    while i < n
        invariant
            i <= n == names@.len(),
            named_field(json_of(*v), names@, 0) == named_field(json_of(*v), names@, i as int),
        decreases n - i,
    {
        if let Some(x) = get(v, names[i]) {
            if !is_null(x) {
                return Some(x);
            }
        }
        i += 1;
    }
    None
}

fn read_text(v: &serde_json::Value, names: &[&'static str]) -> (r: Option<String>)
    ensures
        opt_view(r) == read_from(
            named_field(json_of(*v), names@, 0),
            |x: Json| text_of(x),
        ),
{
    match find_field(v, names) {
        Some(x) => match as_str(x) {
            Some(s) => Some(s.to_owned()),
            None => None,
        },
        None => None,
    }
}

fn to_texts(x: &serde_json::Value) -> (r: Option<Vec<String>>)
    ensures
        opt_views(r) == texts_in(json_of(*x)),
{
    if let Some(s) = as_str(x) {
        let mut one: Vec<String> = Vec::new();
        one.push(s.to_owned());
        proof {
            assert(views(one@) =~= seq![s@]);
        }
        return Some(one);
    }
    let list = match as_array(x) {
        Some(a) => a,
        None => {
            return None;
        },
    };
    let ghost all = jsons_of(list@);
    let n: usize = list.len();
    let mut out: Vec<String> = Vec::new();
    let mut i: usize = 0;
    proof {
        assert(views(out@) =~= texts_among(all.take(0)));
    }
    while i < n
        invariant
            i <= n == list@.len(),
            all == jsons_of(list@),
            views(out@) == texts_among(all.take(i as int)),
        decreases n - i,
    {
        let ghost before = out@;
        proof {
            assert(all.take(i + 1).drop_last() =~= all.take(i as int));
            assert(all[i as int] == json_of(list@[i as int]));
        }
        if let Some(s) = as_str(&list[i]) {
            out.push(s.to_owned());
            proof {
                assert(views(out@) =~= views(before).push(s@));
            }
        }
        i += 1;
    }
    proof {
        assert(all.take(n as int) =~= all);
    }
    Some(out)
}

fn read_texts(v: &serde_json::Value, names: &[&'static str]) -> (r: Option<Vec<String>>)
    ensures
        opt_views(r) == read_from(
            named_field(json_of(*v), names@, 0),
            |x: Json| texts_in(x),
        ),
{
    match find_field(v, names) {
        Some(x) => to_texts(x),
        None => None,
    }
}

/// The view of an optional item.
spec fn opt_item(o: Option<ActionItemRaw>) -> Option<ItemView> {
    match o {
        Some(i) => Some(item_of(i)),
        None => None,
    }
}

fn to_item(x: &serde_json::Value) -> (r: Option<ActionItemRaw>)
    ensures
        opt_item(r) == item_in(json_of(*x)),
{
    if let Some(s) = as_str(x) {
        return Some(ActionItemRaw::Text(s.to_owned()));
    }
    match get_text(x, "text") {
        Some(t) => {
            let owner = match get_text(x, "owner") {
                Some(s) => s.to_owned(),
                None => String::new(),
            };
            let due = match get_text(x, "due") {
                Some(s) => s.to_owned(),
                None => String::new(),
            };
            Some(ActionItemRaw::Full(ActionItem { text: t.to_owned(), owner, due }))
        },
        None => None,
    }
}

pub open spec fn raw_item_views(v: Seq<ActionItemRaw>) -> Seq<ItemView> {
    v.map_values(|a: ActionItemRaw| item_of(a))
}

/// The view of optional items.
spec fn opt_items(o: Option<Vec<ActionItemRaw>>) -> Option<Seq<ItemView>> {
    match o {
        Some(v) => Some(raw_item_views(v@)),
        None => None,
    }
}

fn to_items(x: &serde_json::Value) -> (r: Option<Vec<ActionItemRaw>>)
    ensures
        opt_items(r) == items_in(json_of(*x)),
{
    let list = match as_array(x) {
        Some(a) => a,
        None => {
            return match to_item(x) {
                Some(item) => {
                    let mut one: Vec<ActionItemRaw> = Vec::new();
                    let ghost iv = item_of(item);
                    one.push(item);
                    proof {
                        assert(raw_item_views(one@) =~= seq![iv]);
                    }
                    Some(one)
                },
                None => None,
            };
        },
    };
    let ghost all = jsons_of(list@);
    let n: usize = list.len();
    let mut out: Vec<ActionItemRaw> = Vec::new();
    let mut i: usize = 0;
    proof {
        assert(raw_item_views(out@) =~= items_among(all.take(0)));
    }
    while i < n
        invariant
            i <= n == list@.len(),
            all == jsons_of(list@),
            raw_item_views(out@) == items_among(all.take(i as int)),
        decreases n - i,
    {
        let ghost before = out@;
        proof {
            assert(all.take(i + 1).drop_last() =~= all.take(i as int));
            assert(all[i as int] == json_of(list@[i as int]));
        }
        if let Some(item) = to_item(&list[i]) {
            let ghost iv = item_of(item);
            out.push(item);
            proof {
                assert(raw_item_views(out@) =~= raw_item_views(before).push(iv));
            }
        }
        i += 1;
    }
    proof {
        assert(all.take(n as int) =~= all);
    }
    Some(out)
}

fn to_section(x: &serde_json::Value) -> (r: Option<SectionRaw>)
    ensures
        match r {
            Some(s) => section_in(json_of(*x)) == Some(s@),
            None => section_in(json_of(*x)) is None,
        },
{
    if keys(x).is_none() {
        return None;
    }
    let until_ms: Option<i64> = match find_field(x, UNTIL_NAMES.as_slice()) {
        Some(y) => as_i64(y),
        None => None,
    };
    Some(
        SectionRaw {
            title: read_text(x, TITLE_NAMES.as_slice()),
            points: read_texts(x, POINTS_NAMES.as_slice()),
            until_ms,
        },
    )
}

/// The view of optional sections.
spec fn opt_sections(o: Option<Vec<SectionRaw>>) -> Option<Seq<RawSectionView>> {
    match o {
        Some(v) => Some(raw_views(v@)),
        None => None,
    }
}

fn to_sections(x: &serde_json::Value) -> (r: Option<Vec<SectionRaw>>)
    ensures
        opt_sections(r) == sections_in(json_of(*x)),
{
    let list = match as_array(x) {
        Some(a) => a,
        None => {
            return None;
        },
    };
    let ghost all = jsons_of(list@);
    let n: usize = list.len();
    let mut out: Vec<SectionRaw> = Vec::new();
    let mut i: usize = 0;
    proof {
        assert(raw_views(out@) =~= sections_among(all.take(0)));
    }
    while i < n
        invariant
            i <= n == list@.len(),
            all == jsons_of(list@),
            raw_views(out@) == sections_among(all.take(i as int)),
        decreases n - i,
    {
        let ghost before = out@;
        proof {
            assert(all.take(i + 1).drop_last() =~= all.take(i as int));
            assert(all[i as int] == json_of(list@[i as int]));
        }
        if let Some(s) = to_section(&list[i]) {
            let ghost sv = s@;
            out.push(s);
            proof {
                assert(raw_views(out@) =~= raw_views(before).push(sv));
            }
        }
        i += 1;
    }
    proof {
        assert(all.take(n as int) =~= all);
    }
    Some(out)
}

/// Reads the patch that an object is.
pub fn read_patch(v: &serde_json::Value) -> (r: SummaryPatch)
    ensures
        r@ == patch_in(json_of(*v)),
{
    let sections = match find_field(v, SECTIONS_NAMES.as_slice()) {
        Some(x) => to_sections(x),
        None => None,
    };
    let action_items = match find_field(v, ITEMS_NAMES.as_slice()) {
        Some(x) => to_items(x),
        None => None,
    };
    SummaryPatch {
        live: read_text(v, LIVE_NAMES.as_slice()),
        overview: read_text(v, OVERVIEW_NAMES.as_slice()),
        summary: read_text(v, SUMMARY_NAMES.as_slice()),
        sections,
        key_points: read_texts(v, KEY_POINTS_NAMES.as_slice()),
        decisions: read_texts(v, DECISIONS_NAMES.as_slice()),
        action_items,
        topics: read_texts(v, TOPICS_NAMES.as_slice()),
    }
}

// ---------------------------------------------------------------------------
// Laws
// ---------------------------------------------------------------------------

/// Two objects with the same fields under some names read the same there:
/// whatever else they hold, and of whatever kind, does not matter.
pub proof fn law_fields_are_read_by_themselves(
    a: Json,
    b: Json,
    names: Seq<&'static str>,
    i: int,
)
    requires
        forall|k: int|
            0 <= k < names.len() ==> field(a, (#[trigger] names[k])@) == field(b, names[k]@),
    ensures
        named_field(a, names, i) == named_field(b, names, i),
    decreases names.len() - i,
{
    if 0 <= i < names.len() {
        law_fields_are_read_by_themselves(a, b, names, i + 1);
    }
}

/// The first name that is there counts.
pub proof fn law_proper_names_come_first(j: Json, names: Seq<&'static str>, k: int)
    requires
        0 <= k < names.len(),
        forall|i: int|
            0 <= i < k ==> field(j, (#[trigger] names[i])@) is None || field(j, names[i]@) == Some(
                Json::Null,
            ),
        field(j, names[k]@) matches Some(x) && !(x is Null),
    ensures
        named_field(j, names, 0) == field(j, names[k]@),
{
    lemma_named_field(j, names, 0, k);
}

proof fn lemma_named_field(j: Json, names: Seq<&'static str>, from: int, k: int)
    requires
        0 <= from <= k < names.len(),
        forall|i: int|
            0 <= i < k ==> field(j, (#[trigger] names[i])@) is None || field(j, names[i]@) == Some(
                Json::Null,
            ),
        field(j, names[k]@) matches Some(x) && !(x is Null),
    ensures
        named_field(j, names, from) == field(j, names[k]@),
    decreases k - from,
{
    if from < k {
        assert(field(j, names[from]@) is None || field(j, names[from]@) == Some(Json::Null));
        lemma_named_field(j, names, from + 1, k);
    }
}

/// Every part of a reply is read from the field of its name, and from no other: what
/// the model writes under decisions becomes decisions, and so on.
pub proof fn law_parts_are_read_from_their_fields(j: Json, list: Seq<Json>, t: Seq<char>)
    ensures
        field(j, "decisions"@) == Some(Json::List(list)) ==> patch_in(j).decisions == Some(
            texts_among(list),
        ),
        field(j, "keyPoints"@) == Some(Json::List(list)) ==> patch_in(j).key_points == Some(
            texts_among(list),
        ),
        field(j, "topics"@) == Some(Json::List(list)) ==> patch_in(j).topics == Some(
            texts_among(list),
        ),
        field(j, "actionItems"@) == Some(Json::List(list)) ==> patch_in(j).action_items == Some(
            items_among(list),
        ),
        field(j, "sections"@) == Some(Json::List(list)) ==> patch_in(j).sections == Some(
            sections_among(list),
        ),
        field(j, "live"@) == Some(Json::Text(t)) ==> patch_in(j).live == Some(t),
        field(j, "overview"@) == Some(Json::Text(t)) ==> patch_in(j).overview == Some(t),
        field(j, "summary"@) == Some(Json::Text(t)) ==> patch_in(j).summary == Some(t),
{
    assert(DECISIONS_NAMES@[0]@ == "decisions"@);
    assert(KEY_POINTS_NAMES@[0]@ == "keyPoints"@);
    assert(TOPICS_NAMES@[0]@ == "topics"@);
    assert(ITEMS_NAMES@[0]@ == "actionItems"@);
    assert(SECTIONS_NAMES@[0]@ == "sections"@);
    assert(LIVE_NAMES@[0]@ == "live"@);
    assert(OVERVIEW_NAMES@[0]@ == "overview"@);
    assert(SUMMARY_NAMES@[0]@ == "summary"@);
}

/// Lists of texts are read whole and in order.
pub proof fn law_texts_are_read_in_order(texts: Seq<Seq<char>>)
    ensures
        texts_among(texts.map_values(|t: Seq<char>| Json::Text(t))) == texts,
        texts_in(Json::List(texts.map_values(|t: Seq<char>| Json::Text(t)))) == Some(texts),
    decreases texts.len(),
{
    let f = |t: Seq<char>| Json::Text(t);
    let all = texts.map_values(f);
    if texts.len() > 0 {
        let head = texts.drop_last();
        law_texts_are_read_in_order(head);
        assert(all.drop_last() =~= head.map_values(f));
        assert(all.last() == Json::Text(texts.last()));
        assert(head.push(texts.last()) =~= texts);
    } else {
        assert(all =~= Seq::empty());
        assert(texts =~= Seq::empty());
    }
}

/// Things to be done are read with who does them and until when, in order; a text by
/// itself is something to be done too.
pub proof fn law_things_to_be_done_are_read_whole(
    list: Seq<Json>,
    x: Json,
    text: Seq<char>,
    owner: Seq<char>,
    due: Seq<char>,
)
    ensures
        x == Json::Text(text) ==> items_among(list.push(x)) == items_among(list).push(
            ItemView { text: trimmed(text), owner: Seq::empty(), due: Seq::empty() },
        ),
        field(x, "text"@) == Some(Json::Text(text)) && field(x, "owner"@) == Some(Json::Text(owner))
            && field(x, "due"@) == Some(Json::Text(due)) ==> items_among(list.push(x))
            == items_among(list).push(
            ItemView { text: trimmed(text), owner: trimmed(owner), due: trimmed(due) },
        ),
{
    assert(list.push(x).drop_last() =~= list);
}

/// Sections are read with title, points and time, in order.
pub proof fn law_sections_are_read_whole(
    list: Seq<Json>,
    x: Json,
    title: Seq<char>,
    points: Seq<Json>,
    until: int,
)
    requires
        field(x, "title"@) == Some(Json::Text(title)),
        field(x, "points"@) == Some(Json::List(points)),
        field(x, "untilMs"@) == Some(Json::Number(Some(until))),
        i64::MIN <= until <= i64::MAX,
    ensures
        sections_among(list.push(x)) == sections_among(list).push(
            RawSectionView { title, points: texts_among(points), until },
        ),
{
    assert(list.push(x).drop_last() =~= list);
    assert(TITLE_NAMES@[0]@ == "title"@);
    assert(POINTS_NAMES@[0]@ == "points"@);
    assert(UNTIL_NAMES@[0]@ == "untilMs"@);
    assert(named_field(x, TITLE_NAMES@, 0) == Some(Json::Text(title)));
    assert(named_field(x, POINTS_NAMES@, 0) == Some(Json::List(points)));
    assert(named_field(x, UNTIL_NAMES@, 0) == Some(Json::Number(Some(until))));
}

/// What [`read_patch`] reads: every part from the field of its name.
pub proof fn law_patches_are_read_part_by_part(v: &serde_json::Value, r: SummaryPatch, list: Seq<Json>, t: Seq<char>)
    requires
        call_ensures(read_patch, (v,), r),
    ensures
        field(json_of(*v), "decisions"@) == Some(Json::List(list)) ==> opt_views(r.decisions)
            == Some(texts_among(list)),
        field(json_of(*v), "keyPoints"@) == Some(Json::List(list)) ==> opt_views(r.key_points)
            == Some(texts_among(list)),
        field(json_of(*v), "topics"@) == Some(Json::List(list)) ==> opt_views(r.topics) == Some(
            texts_among(list),
        ),
        field(json_of(*v), "live"@) == Some(Json::Text(t)) ==> opt_view(r.live) == Some(t),
        field(json_of(*v), "overview"@) == Some(Json::Text(t)) ==> opt_view(r.overview) == Some(t),
        field(json_of(*v), "summary"@) == Some(Json::Text(t)) ==> opt_view(r.summary) == Some(t),
{
    law_parts_are_read_from_their_fields(json_of(*v), list, t);
    assert(r@.decisions == opt_views(r.decisions));
}

} // verus!
