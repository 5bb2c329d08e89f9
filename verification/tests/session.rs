//! Sessions and their exports.

use meeting_hear::ai::summarizer::ActionItem;
use meeting_hear::num::Single;
use meeting_hear::session::export::{render_export, srt_timestamp, ExportFormat};
use meeting_hear::session::{
    session_file_name, sort_by_time, Session, SessionConfig, SessionStatus, TranscriptSegment,
};
use meeting_hear::util::now_ms;

fn single(x: f32) -> Single {
    Single { bits: x.to_bits() }
}


fn sample_session() -> Session {
    let mut s = Session::new("产品周会".into(), SessionConfig {
        model_id: "small".into(),
        enable_mic: true,
        enable_loopback: true,
        mic_label: Some("MacBook 麦克风".into()),
        loopback_label: Some("扬声器".into()),
    });
    s.duration_ms = 754_000;
    s.status = SessionStatus::Finished;
    s.push_segment(TranscriptSegment {
        id: 0,
        text: "我们先过一下三季度的增长情况。".into(),
        start_ms: 1_200,
        end_ms: 4_500,
        confidence: Some(single(0.92)),
        suspect: None,
    });
    s.push_segment(TranscriptSegment {
        id: 0,
        text: "流失率上升了两个百分点，主要在中小客户。".into(),
        start_ms: 5_000,
        end_ms: 9_800,
        confidence: Some(single(0.88)),
        suspect: None,
    });
    s.summary.overview = "复盘三季度并确定下季度方向。".into();
    s.summary.summary = "- 三季度营收环比 +18%\n- 流失率上升 2pt".into();
    s.summary.key_points = vec!["企业版是增长主引擎".into()];
    s.summary.action_items = vec![ActionItem {
        text: "输出埋点方案".into(),
        owner: "张三".into(),
        due: "下周三".into(),
    }];
    s.summary.revision = 3;
    s
}

#[test]
fn segment_ids_are_monotonic_and_stats_accumulate() {
    let mut s = Session::default();
    let a = s.push_segment(TranscriptSegment {
        id: 0,
        text: "一二三".into(),
        start_ms: 0,
        end_ms: 1_000,
        confidence: None,
        suspect: None,
    });
    let b = s.push_segment(TranscriptSegment {
        id: 0,
        text: "四五".into(),
        start_ms: 1_000,
        end_ms: 2_500,
        confidence: None,
        suspect: None,
    });
    assert_eq!((a, b), (1, 2));
    assert_eq!(s.stats.chars, 5);
    assert_eq!(s.stats.segments, 2);
    // speech_ms 由断句线程维护，这里不应被改动
    assert_eq!(s.stats.speech_ms, 0);
    assert_eq!(s.last_segment_end_ms(), 2_500);
}

#[test]
fn live_duration_includes_running_time() {
    let mut s = Session::new("会议".into(), SessionConfig::default());
    s.duration_ms = 10_000;
    let now = now_ms();
    s.resumed_at = Some(now - 5_000);
    assert!((s.live_duration_ms(now) - 15_000).abs() < 50);
    s.status = SessionStatus::Paused;
    assert_eq!(s.live_duration_ms(now), 10_000);
}

#[test]
fn markdown_export_contains_all_sections() {
    let s = sample_session();
    let md = render_export(&s, ExportFormat::Markdown).unwrap();
    assert!(md.starts_with("# 产品周会"));
    assert!(md.contains("| 识别服务 | small |"));
    assert!(md.contains("## 总览"));
    assert!(md.contains("## 关键结论"));
    assert!(md.contains("## 待办事项"));
    assert!(md.contains("| 输出埋点方案 | 张三 | 下周三 |"));
    assert!(md.contains("## 完整转写"));
    assert!(md.contains("**[00:00:01]** 我们先过一下三季度的增长情况。"));
    assert!(md.contains("系统声音（扬声器）"));
}

#[test]
fn srt_export_is_wellformed() {
    let s = sample_session();
    let srt = render_export(&s, ExportFormat::Srt).unwrap();
    assert!(srt.starts_with("1\n00:00:01,200 --> 00:00:04,500\n"));
    assert!(srt.contains("我们先过一下三季度的增长情况。"));
    assert!(srt.contains("2\n00:00:05,000 --> 00:00:09,800"));
}

#[test]
fn srt_timestamp_formats_hours() {
    assert_eq!(srt_timestamp(0), "00:00:00,000");
    assert_eq!(srt_timestamp(3_661_005), "01:01:01,005");
}

#[test]
fn text_export_is_plain() {
    let s = sample_session();
    let txt = render_export(&s, ExportFormat::Text).unwrap();
    assert!(txt.contains("[00:00:01] 我们先过一下三季度的增长情况。"));
    assert!(!txt.contains("##"));
}

#[test]
fn export_format_parsing() {
    assert_eq!(ExportFormat::parse("md").unwrap(), ExportFormat::Markdown);
    assert_eq!(ExportFormat::parse("SRT").unwrap(), ExportFormat::Srt);
    assert_eq!(ExportFormat::parse("txt").unwrap(), ExportFormat::Text);
    assert_eq!(ExportFormat::parse("json").unwrap(), ExportFormat::Json);
    assert!(ExportFormat::parse("pdf").is_err());
    assert_eq!(ExportFormat::Markdown.extension(), "md");
}

#[test]
fn default_file_name_is_safe() {
    let mut s = sample_session();
    s.title = "2024/03/01 周会:复盘?".into();
    let name = ExportFormat::Markdown.default_file_name(&s);
    assert!(name.ends_with(".md"));
    assert!(!name.contains('/'), "文件名不能含路径分隔符：{name}");
    assert!(!name.contains('?'));
    assert!(!name.contains(':'));
}

#[test]
fn suspect_segments_are_kept_but_excluded_from_summary_input() {
    // 真实事故回归：模型/语言不匹配时服务返回英文幻觉，旧实现把它整段丢掉，
    // 界面上一个字都没有。现在的约定是 —— 照常展示，但不进纪要。
    let mut s = Session::default();
    s.push_segment(TranscriptSegment {
        id: 0,
        text: "我们先过一下三季度的增长情况。".into(),
        start_ms: 0,
        end_ms: 3_000,
        confidence: None,
        suspect: None,
    });
    s.push_segment(TranscriptSegment {
        id: 0,
        text: "Thank you for watching!".into(),
        start_ms: 3_000,
        end_ms: 5_000,
        confidence: None,
        suspect: Some("疑似模型幻听短语".into()),
    });

    // 1) 段落本身必须留在会话里（界面才能显示出来）
    assert_eq!(s.segments.len(), 2, "可疑段不得被删除");
    assert!(s.segments.iter().any(|x| x.text.contains("Thank you")));
    // 字数统计照旧，用户看到的确实是这些内容
    assert_eq!(s.stats.chars, s.segments.iter().map(|x| x.text.chars().count() as i64).sum::<i64>());

    // 2) 但对大模型要隐身：幻觉足以把整份纪要带偏
    let all = s.transcript_between(0, 10_000);
    assert!(all.contains("Thank you"), "给人看的转写要包含可疑段");
    let trusted = s.transcript_between_trusted(0, 10_000);
    assert!(trusted.contains("三季度"), "正常内容要进纪要");
    assert!(!trusted.contains("Thank you"), "可疑内容不得进纪要");
    assert!(!s.full_transcript(usize::MAX).contains("Thank you"));
}

#[test]
fn transcript_between_includes_overlapping_segments() {
    let s = sample_session();
    // 区间 [4000,10000] 与第一段 [1200,4500] 有重叠，因此两段都在
    let window = s.transcript_between(4_000, 10_000);
    assert!(window.contains("我们先过一下"));
    assert!(window.contains("流失率上升"));

    // 完全落在区间之前的段不会被带进来
    let later = s.transcript_between(9_000, 10_000);
    assert!(!later.contains("我们先过一下"));
    assert!(later.contains("流失率上升"));
}

#[test]
fn incremental_windows_do_not_duplicate_segments() {
    // 增量总结是「从上次覆盖到的位置继续」，相邻两轮之间不能重复取到同一段
    let s = sample_session();
    let first = s.transcript_between(0, 4_500);
    assert_eq!(first.matches("我们先过一下").count(), 1);
    let second = s.transcript_between(4_500, 9_800);
    assert!(!second.contains("我们先过一下"), "第二轮不应重复第一段");
    assert_eq!(second.matches("流失率上升").count(), 1);
}

#[test]
fn full_transcript_includes_timestamps() {
    let s = sample_session();
    let t = s.full_transcript(10_000);
    assert!(t.contains("[00:00:01] 我们先过一下三季度的增长情况。"));
    assert!(t.contains("[00:00:05] 流失率上升了两个百分点"));
}

#[test]
fn session_info_and_detail_are_consistent() {
    let s = sample_session();
    let now = now_ms();
    let info = s.info(now);
    let detail = s.detail(now);
    assert_eq!(info.id, detail.id);
    assert_eq!(info.duration_ms, detail.duration_ms);
    assert_eq!(detail.segments.len(), 2);
    assert_eq!(detail.summary.revision, 3);
    assert!(detail.report_md.is_none());
}

#[test]
fn ids_that_are_no_file_names_are_refused() {
    assert!(session_file_name("../../etc/passwd").is_err());
    assert!(session_file_name("a/b").is_err());
    assert!(session_file_name("../evil").is_err());
    assert!(session_file_name(&"x".repeat(65)).is_err());
    assert_eq!(
        session_file_name("").unwrap_err().message(),
        "会话错误：非法的会话 id："
    );
    assert!(session_file_name("a_b").is_err());
    assert_eq!(session_file_name("id0-A").unwrap(), "id0-A.json");
}

#[test]
fn a_new_session_can_be_stored() {
    let s = Session::new("会议".into(), SessionConfig::default());
    assert_eq!(session_file_name(&s.id).unwrap(), format!("{}.json", s.id));
    assert_eq!(s.status, SessionStatus::Recording);
    assert_ne!(s.id, Session::new("会议".into(), SessionConfig::default()).id);
}

#[test]
fn sessions_are_listed_newest_first() {
    let mut items = Vec::new();
    for (i, title) in ["最早", "最新", "中间"].iter().enumerate() {
        let mut s = sample_session();
        s.title = (*title).into();
        s.created_at = [1_000, 3_000, 2_000][i];
        items.push(s.list_item());
    }
    let list = sort_by_time(items);
    let titles: Vec<&str> = list.iter().map(|i| i.title.as_str()).collect();
    assert_eq!(titles, vec!["最新", "中间", "最早"]);
    assert!(list[0].has_summary);
    assert_eq!(list[0].segments, 2);
}

#[test]
fn a_stored_session_is_not_recording_any_more() {
    for status in [SessionStatus::Recording, SessionStatus::Paused] {
        let mut s = sample_session();
        s.status = status;
        s.resumed_at = Some(5);
        s.restore();
        assert_eq!(s.status, SessionStatus::Finished);
        assert_eq!(s.resumed_at, None);
        // ids go on where they stopped
        assert_eq!(s.next_id(), 3);
    }
}

#[test]
fn stopping_counts_the_time_since_the_last_resumption() {
    let mut s = Session::new("会议".into(), SessionConfig::default());
    s.duration_ms = 10_000;
    s.resumed_at = Some(1_000);
    s.stop(4_500);
    assert_eq!(s.duration_ms, 13_500);
    assert_eq!(s.status, SessionStatus::Finished);
    assert_eq!(s.live_duration_ms(9_999), 13_500);
}

#[test]
fn recent_transcript_is_what_was_said_lately() {
    let s = sample_session();
    assert_eq!(
        s.recent_transcript(10_000, 3),
        "[00:00:05] 流失率上升了两个百分点，主要在中小客户。\n"
    );
    assert_eq!(s.recent_transcript(10_000, 90).lines().count(), 2);
}

#[test]
fn json_is_not_rendered_here() {
    assert!(render_export(&sample_session(), ExportFormat::Json).is_none());
}

#[test]
fn unknown_export_formats_are_named() {
    let e = ExportFormat::parse(" PDF ").unwrap_err();
    assert_eq!(
        e.message(),
        "会话错误：不支持的导出格式：pdf（可选 md / txt / srt / json）"
    );
}

#[test]
fn a_segment_adds_to_any_count_of_characters() {
    let mut s = Session::default();
    s.stats.chars = -7;
    s.push_segment(TranscriptSegment {
        id: 0,
        text: "一二三".into(),
        start_ms: 0,
        end_ms: 1_000,
        confidence: None,
        suspect: None,
    });
    assert_eq!(s.stats.chars, -4);
    s.stats.chars = i64::MAX - 1;
    s.push_segment(TranscriptSegment {
        id: 0,
        text: "四".into(),
        start_ms: 1_000,
        end_ms: 2_000,
        confidence: None,
        suspect: None,
    });
    assert_eq!(s.stats.chars, i64::MAX);
}
