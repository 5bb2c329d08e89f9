//! Requests for minutes.

use meeting_hear::ai::client::{backoff_delay, ChatMessage};
use meeting_hear::ai::prompts::{
    build_incremental_messages, build_report_messages, SectionLine, SummaryMode,
};

fn build(new_text: &str) -> Vec<ChatMessage> {
    build_incremental_messages(
        SummaryMode::Meeting,
        "产品周会",
        "",
        &vec![],
        "",
        &vec![],
        &vec![],
        "",
        &vec![],
        new_text,
        "[00:00:10] 我们先过一下进度",
        1_000,
        30_000,
        30_000,
        90,
    )
}

#[test]
fn incremental_prompt_has_system_and_user() {
    let msgs = build("[00:00:05] 我：大家好");
    assert_eq!(msgs.len(), 2);
    assert_eq!(msgs[0].role, "system");
    assert_eq!(msgs[1].role, "user");
    assert!(msgs[0].content.contains("增量更新"));
}

#[test]
fn incremental_prompt_carries_new_text_and_schema() {
    let msgs = build("[00:00:05] 我：本季度营收增长百分之十八");
    let user = &msgs[1].content;
    assert!(user.contains("本季度营收增长百分之十八"));
    assert!(user.contains("产品周会"));
    assert!(user.contains("00:00:01 → 00:00:30"));
    assert!(user.contains("\"actionItems\""));
    assert!(user.contains("最近 90 秒"));
}

#[test]
fn empty_state_does_not_leak_a_template_skeleton() {
    // 回归测试：第一版纪要时不能把「总览：/纪要：」这类标签骨架喂给模型，
    // 否则小模型会把骨架原样抄回来（实测 qwen2.5:1.5b 会输出"总览：总览：总览：…"）
    let msgs = build("随便");
    let user = &msgs[1].content;
    assert!(user.contains("这是第一版"));
    assert!(!user.contains("总览："), "空状态不应出现字段骨架：{user}");
    assert!(!user.contains("（空）"));
}

#[test]
fn lecture_mode_gets_its_own_prompt_and_labels() {
    // 讲座与会议要抓的东西不同：讲座不该出现「待办/负责人」这种会议话术，
    // 会议也不该被要求整理「知识笔记」。（下面用非空状态，字段名才会渲染出来）
    let lecture = build_incremental_messages(
        SummaryMode::Lecture,
        "机器学习导论",
        "已讲注意力机制的动机",
        &vec![SectionLine {
            title: "注意力机制".into(),
            points: vec!["循环网络长序列梯度消失".into()],
        }],
        "",
        &vec!["梯度消失".to_string()],
        &vec![],
        "",
        &vec![],
        "[00:00:03] 今天我们讲注意力机制。",
        "",
        0,
        3_000,
        3_000,
        90,
    );
    let sys = &lecture[0].content;
    assert!(sys.contains("学习笔记"), "讲座模式 system 提示词不对：{}", &sys[..60]);
    assert!(sys.contains("知识笔记"));
    assert!(sys.contains("核心概念"));
    assert!(!sys.contains("会议秘书"), "讲座不该用会议秘书人设");

    let user = &lecture[1].content;
    assert!(user.contains("已分模块笔记"), "讲座模式的字段用词应不同：{user}");
    assert!(user.contains("核心概念"), "讲座模式应使用「核心概念」而不是「关键结论」");
    assert!(!user.contains("已分段纪要"), "讲座模式不该出现会议用词");
    assert!(!user.contains("待办事项"), "讲座模式不该出现待办骨架");

    // 会议模式保持原样
    let meeting = build_incremental_messages(
        SummaryMode::Meeting,
        "产品周会",
        "",
        &vec![],
        "",
        &vec![],
        &vec![],
        "",
        &vec![],
        "开会",
        "",
        0,
        1_000,
        1_000,
        90,
    );
    assert!(meeting[0].content.contains("会议秘书"));
    assert_eq!(SummaryMode::parse("lecture"), SummaryMode::Lecture);
    assert_eq!(SummaryMode::parse("讲座"), SummaryMode::Lecture);
    assert_eq!(SummaryMode::parse("随便"), SummaryMode::Meeting);
    assert_eq!(SummaryMode::Meeting.as_str(), "meeting");
}

#[test]
fn summary_is_framed_as_a_past_time_window() {
    // 纪要不是实时字幕：提示词必须把它说明成「已经过去的一段时间」
    let msgs = build("内容");
    let user = &msgs[1].content;
    assert!(user.contains("已经过去的区间"), "应说明总结的是过去的时间段：{user}");
    assert!(msgs[0].content.contains("实时字幕"), "system 提示词应说明它不是实时字幕");
}

#[test]
fn chat_retry_backoff_grows_then_caps() {
    assert_eq!(backoff_delay(1).as_secs(), 1);
    assert_eq!(backoff_delay(2).as_secs(), 2);
    assert_eq!(backoff_delay(3).as_secs(), 4);
    // 不要无限增长，否则用户要等很久才看到报错
    assert_eq!(backoff_delay(4).as_secs(), 8);
    assert_eq!(backoff_delay(9).as_secs(), 8);
}

#[test]
fn non_empty_state_is_delimited_as_data() {
    let msgs = build_incremental_messages(
        SummaryMode::Meeting,
        "周会",
        "已有总览",
        &vec![],
        "- 已有要点",
        &vec![],
        &vec![],
        "",
        &vec![],
        "新增内容",
        "最近对话",
        0,
        1000,
        1000,
        90,
    );
    let user = &msgs[1].content;
    assert!(user.contains("<已有内容>") && user.contains("</已有内容>"));
    assert!(user.contains("不是输出模板"));
}

#[test]
fn system_prompt_forbids_copying_itself() {
    // 血泪教训：提示词里放 few-shot 示例，小模型会把示例**原样抄进结果**。
    // 用户看到的就是一段跟他毫无关系的「示例内容」，还以为是程序坏了。
    // 所以：不给示例，并且明确禁止照抄提示词。
    for mode in [SummaryMode::Meeting, SummaryMode::Lecture] {
        let sys = mode.system_prompt();
        assert!(
            sys.contains("不要照抄") || sys.contains("绝对不要照抄"),
            "{:?} 的提示词必须明确禁止照抄",
            mode
        );
        assert!(
            !sys.contains("正确输出"),
            "{:?} 的提示词不应再包含 few-shot 示例（会被原样抄走）",
            mode
        );
    }
}

#[test]
fn previous_summary_is_included() {
    let msgs = build_incremental_messages(
        SummaryMode::Meeting,
        "周会",
        "讨论了增长",
        &vec![],
        "- 营收 +18%",
        &vec!["增长主要来自企业版".to_string()],
        &vec!["确定下季度目标".to_string()],
        "- 张三代办：出埋点方案",
        &vec!["增长".to_string()],
        "新增内容",
        "最近对话",
        0,
        1000,
        1000,
        90,
    );
    let user = &msgs[1].content;
    assert!(user.contains("讨论了增长"));
    assert!(user.contains("增长主要来自企业版"));
    assert!(user.contains("张三代办：出埋点方案"));
}

#[test]
fn report_prompt_truncates_long_transcript() {
    let long = "字".repeat(5_000);
    let msgs = build_report_messages("周会", "时长 30 分钟", &long, 1_000);
    assert_eq!(msgs.len(), 2);
    // 转写正文被裁剪到 max_chars 附近（截断函数会补一个省略号）
    assert!(
        msgs[1].content.chars().count() < 1_500,
        "实际长度 {}",
        msgs[1].content.chars().count()
    );
    // 输出结构要求写在 system 提示里
    assert!(msgs[0].content.contains("待办事项"));
    assert!(msgs[0].content.contains("只依据转写内容"));
    // 会议信息与标题要带上
    assert!(msgs[1].content.contains("产品") || msgs[1].content.contains("周会"));
    assert!(msgs[1].content.contains("时长 30 分钟"));
}
