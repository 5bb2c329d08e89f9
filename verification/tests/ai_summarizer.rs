//! Rolling minutes.

use meeting_hear::ai::client::TokenUsage;
use meeting_hear::ai::summarizer::{
    apply_patch, apply_patch_at, clean_list, nested_key, parse_summary_patch, sections_to_markdown, ActionItem,
    SectionRaw, SummaryPatch, SummarySection, SummaryState,
};

/// The patch in a reply.
fn patch(raw: &str) -> SummaryPatch {
    parse_summary_patch(raw).unwrap()
}

fn usage() -> TokenUsage {
    TokenUsage { prompt_tokens: 100, completion_tokens: 50, total_tokens: 150 }
}

#[test]
fn parses_plain_json() {
    let raw = r#"{"live":"在讨论增长","overview":"整体进展","summary":"- 营收 +18%","keyPoints":["企业版驱动"],"decisions":["定目标"],"actionItems":[{"text":"出方案","owner":"张三","due":"周三"}],"topics":["增长"]}"#;
    let p = patch(raw);
    let mut st = SummaryState::default();
    assert!(apply_patch(&mut st, p, "deepseek-chat", 12_000, &usage()));
    assert_eq!(st.live, "在讨论增长");
    assert_eq!(st.key_points, vec!["企业版驱动"]);
    assert_eq!(st.action_items[0].owner, "张三");
    assert_eq!(st.covered_until_ms, 12_000);
    assert_eq!(st.revision, 1);
    assert_eq!(st.calls, 1);
    assert_eq!(st.prompt_tokens, 100);
}

#[test]
fn parses_fenced_json_with_prose() {
    let raw = "好的，这是更新后的纪要：\n```json\n{\"live\":\"在讲预算\",\"topics\":[\"预算\"]}\n```\n希望有帮助。";
    let p = patch(raw);
    assert_eq!(p.live.unwrap(), "在讲预算");
}

#[test]
fn unwraps_nested_result() {
    let raw = r#"{"result":{"live":"嵌套内容"}}"#;
    let p = patch(raw);
    assert_eq!(p.live.unwrap(), "嵌套内容");
}

#[test]
fn handles_unescaped_braces_inside_strings() {
    let raw = r#"{"live":"他说「{这个}要改」","topics":["改动"]}"#;
    let p = patch(raw);
    assert_eq!(p.live.unwrap(), "他说「{这个}要改」");
}

#[test]
fn action_items_accept_plain_strings() {
    let raw = r#"{"actionItems":["出埋点方案","找财务确认"]}"#;
    let p = patch(raw);
    let mut st = SummaryState::default();
    apply_patch(&mut st, p, "m", 0, &usage());
    assert_eq!(st.action_items.len(), 2);
    assert_eq!(st.action_items[0].text, "出埋点方案");
    assert!(st.action_items[0].owner.is_empty());
}

#[test]
fn snake_case_keys_are_accepted() {
    let raw = r#"{"key_points":["a"],"action_items":[{"text":"b"}],"live":"x"}"#;
    let patch = parse_summary_patch(raw).unwrap();
    assert_eq!(patch.key_points.unwrap(), vec!["a"]);
    assert_eq!(patch.action_items.unwrap().len(), 1);
}

#[test]
fn empty_lists_do_not_wipe_existing_data() {
    let mut st = SummaryState::default();
    let full = patch(r#"{"keyPoints":["重要结论"],"decisions":["已决定"]}"#);
    apply_patch(&mut st, full, "m", 0, &usage());
    let empty = patch(r#"{"keyPoints":[],"decisions":[]}"#);
    apply_patch(&mut st, empty, "m", 5_000, &usage());
    assert_eq!(st.key_points, vec!["重要结论"]);
    assert_eq!(st.decisions, vec!["已决定"]);
    // 但时间戳与轮次仍然前进
    assert_eq!(st.covered_until_ms, 5_000);
    assert_eq!(st.revision, 2);
}

#[test]
fn covered_until_never_goes_backwards() {
    let mut st = SummaryState::default();
    let p = patch(r#"{"live":"a"}"#);
    apply_patch(&mut st, p, "m", 30_000, &usage());
    let p = patch(r#"{"live":"b"}"#);
    apply_patch(&mut st, p, "m", 10_000, &usage());
    assert_eq!(st.covered_until_ms, 30_000);
}

#[test]
fn summary_is_normalized_to_markdown_list() {
    let raw = r#"{"summary":"1. 营收增长\n* 留存下降\n已经达成的决定"}"#;
    let p = patch(raw);
    let mut st = SummaryState::default();
    apply_patch(&mut st, p, "m", 0, &usage());
    for line in st.summary.lines() {
        assert!(line.starts_with("- "), "未规范化的行：{line}");
    }
    assert_eq!(st.summary.lines().count(), 3);
}

#[test]
fn duplicate_items_are_deduped() {
    let raw = r#"{"keyPoints":["同一结论","同一结论","- 同一结论"]}"#;
    let p = patch(raw);
    let mut st = SummaryState::default();
    apply_patch(&mut st, p, "m", 0, &usage());
    assert_eq!(st.key_points.len(), 1);
}

#[test]
fn missing_json_reports_readable_error() {
    let err = parse_summary_patch("抱歉，我无法完成这个请求。").unwrap_err().message();
    assert!(err.contains("JSON"), "实际：{err}");
}

#[test]
fn action_items_text_includes_owner_and_due() {
    let mut st = SummaryState::default();
    st.action_items.push(ActionItem { text: "出方案".into(), owner: "张三".into(), due: "周三".into() });
    let t = st.action_items_text();
    assert!(t.contains("出方案") && t.contains("张三") && t.contains("周三"));
}

fn section(title: &str, points: &[&str]) -> SectionRaw {
    SectionRaw {
        title: Some(title.into()),
        points: Some(points.iter().map(|p| p.to_string()).collect()),
        until_ms: None,
    }
}

#[test]
fn sections_are_rendered_and_replace_the_list() {
    let mut st = SummaryState::default();
    let p = SummaryPatch {
        sections: Some(vec![section("增长", &["营收 +18%"]), section("流失", &["上升 2pt"])]),
        ..Default::default()
    };
    assert!(apply_patch_at(&mut st, p, "m", 1_000, &usage(), 42));
    assert_eq!(st.sections.len(), 2);
    assert_eq!(st.updated_at, 42);
    assert_eq!(st.summary, sections_to_markdown(&st.sections));
    assert!(st.summary.contains("营收 +18%"));
}

#[test]
fn an_empty_patch_changes_nothing_but_the_counters() {
    let mut st = SummaryState::default();
    st.overview = "总览".into();
    assert!(!apply_patch_at(&mut st, SummaryPatch::default(), "m", 500, &usage(), 7));
    assert_eq!(st.overview, "总览");
    assert_eq!((st.revision, st.calls, st.covered_until_ms), (1, 1, 500));
    assert_eq!(st.model.as_deref(), Some("m"));
}

#[test]
fn lists_are_cleaned_and_cut() {
    let items: Vec<String> = ["- 甲", "1. 乙", "  ", "甲", "丙"].iter().map(|s| s.to_string()).collect();
    assert_eq!(clean_list(&items, 2), vec!["甲", "乙"]);
    assert_eq!(clean_list(&items, 9), vec!["甲", "乙", "丙"]);
}

#[test]
fn a_reply_with_broken_json_says_so() {
    let err = parse_summary_patch("{\"live\": }").unwrap_err().message();
    assert!(err.starts_with("AI 服务错误：") || err.contains("JSON"), "{err}");
}

#[test]
fn sections_as_markdown() {
    let s = vec![SummarySection { title: "增长".into(), points: vec!["a".into()], until_ms: 0 }];
    assert!(sections_to_markdown(&s).contains("- a"));
}

#[test]
fn fields_of_a_wrong_kind_spoil_nothing_else() {
    let raw = r#"{"live":7,"overview":"总览","keyPoints":"只有一条","decisions":["a",3,null,"b"],
        "actionItems":[5,"甲",{"text":"乙","owner":null},{"owner":"丙"}],"topics":null,"topic":"增长"}"#;
    let p = patch(raw);
    assert_eq!(p.live, None);
    assert_eq!(p.overview.as_deref(), Some("总览"));
    assert_eq!(p.key_points.unwrap(), vec!["只有一条"]);
    assert_eq!(p.decisions.unwrap(), vec!["a", "b"]);
    assert_eq!(p.action_items.unwrap().len(), 2);
    assert_eq!(p.topics.unwrap(), vec!["增长"]);
}

#[test]
fn sections_are_read_under_other_names() {
    let raw = r#"{"outline":[{"heading":"增长","bullets":["a"],"endMs":5000},"x",{"title":"流失","points":"b","untilMs":-1}],
        "live":"x"}"#;
    let s = patch(raw).sections.unwrap();
    assert_eq!(s.len(), 2);
    assert_eq!(s[0].title.as_deref(), Some("增长"));
    assert_eq!(s[0].until_ms, Some(5_000));
    assert_eq!(s[1].points.as_deref().unwrap(), ["b"]);
    assert_eq!(s[1].until_ms, Some(-1));
    let raw = r#"{"sections":[{"title":"a","untilMs":9223372036854775807},
        {"title":"b","untilMs":9223372036854775808},{"title":"c","untilMs":1.5}]}"#;
    let s = patch(raw).sections.unwrap();
    assert_eq!(s[0].until_ms, Some(i64::MAX));
    assert_eq!(s[1].until_ms, None);
    assert_eq!(s[2].until_ms, None);
}

#[test]
fn a_summary_that_is_an_object_is_a_wrapping() {
    assert_eq!(patch(r#"{"summary":{"live":"在讲预算"}}"#).live.as_deref(), Some("在讲预算"));
    assert_eq!(patch(r#"{"summary":{"live":"a"},"ok":true}"#).live.as_deref(), Some("a"));
    assert_eq!(patch(r#"{"summary":"- 营收"}"#).summary.as_deref(), Some("- 营收"));
    let fields = vec![("summary".to_string(), true)];
    assert_eq!(nested_key(&fields).as_deref(), Some("summary"));
    let fields = vec![("summary".to_string(), false)];
    assert_eq!(nested_key(&fields), None);
}

#[test]
fn a_repeated_patch_changes_nothing() {
    let long = |c: &str, n: usize| c.repeat(n);
    let p = || SummaryPatch {
        live: Some("现在".into()),
        overview: Some(long("长", 2_500)),
        summary: Some(long("多", 4_500)),
        topics: Some(vec!["增长".into()]),
        ..Default::default()
    };
    let mut st = SummaryState::default();
    assert!(apply_patch_at(&mut st, p(), "m", 0, &usage(), 1));
    assert_eq!(st.overview.chars().count(), 2_001);
    let (overview, summary) = (st.overview.clone(), st.summary.clone());
    assert!(!apply_patch_at(&mut st, p(), "m", 0, &usage(), 2));
    assert_eq!((st.overview, st.summary), (overview, summary));
}
