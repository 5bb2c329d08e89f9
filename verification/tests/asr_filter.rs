//! Cleaning and judging of recognised text.

use meeting_hear::asr::filter::{
    clean_text, count_phrase_chars, is_likely_hallucination, is_no_speech, judge, marks_no_speech,
    needs_space_between, suspect_reason,
};

#[test]
fn clean_removes_cjk_spaces() {
    assert_eq!(clean_text("你 好 ， 世 界"), "你好，世界");
    assert_eq!(clean_text("we  should  review"), "we should review");
    assert_eq!(clean_text("我们用 Tauri 开发"), "我们用 Tauri 开发");
}

#[test]
fn clean_strips_non_speech_markers() {
    assert_eq!(clean_text("[BLANK_AUDIO]"), "");
    assert_eq!(clean_text("(silence)"), "");
    assert_eq!(clean_text("你好 [BLANK_AUDIO] 世界"), "你好世界");
    assert_eq!(clean_text("大家好（音乐）"), "大家好");
    assert_eq!(clean_text("这就是方案（第二个）"), "这就是方案（第二个）");
}

#[test]
fn clean_trims_and_collapses() {
    assert_eq!(clean_text("   你好   世界  "), "你好世界");
    assert_eq!(clean_text("  we   should  review  "), "we should review");
    assert_eq!(clean_text(""), "");
}

#[test]
fn hallucination_detected_on_short_audio() {
    assert!(is_likely_hallucination("谢谢观看", 1_500));
    assert!(is_likely_hallucination("谢谢大家观看，请不吝点赞订阅", 2_000));
    assert!(is_likely_hallucination("Thank you for watching!", 1_000));
    assert!(is_likely_hallucination("字幕由 Amara.org 社群提供", 2_500));
}

#[test]
fn real_speech_is_not_flagged() {
    assert!(!is_likely_hallucination("我们下季度目标定在环比增长百分之十五", 3_000));
    assert!(!is_likely_hallucination("谢谢大家的支持是我们前进的动力", 4_000));
}

#[test]
fn long_audio_mentioning_thanks_is_kept() {
    assert!(!is_likely_hallucination("谢谢观看", 20_000));
}

#[test]
fn empty_and_punctuation_only_are_hallucinations() {
    assert!(is_likely_hallucination("", 5_000));
    assert!(is_likely_hallucination("。", 5_000));
    assert!(is_likely_hallucination("   ", 5_000));
    assert!(is_likely_hallucination("♪♪♪", 5_000));
}

#[test]
fn degenerate_repetition_is_rejected() {
    assert!(is_likely_hallucination("哈哈哈哈哈哈哈哈", 5_000));
    assert!(is_likely_hallucination("一二三一二三一二三一二三", 5_000));
}

#[test]
fn tail_loop_is_rejected() {
    let text = "aswhat you can do for your country as what you can do for your country";
    assert!(is_likely_hallucination(text, 8_000), "尾部循环没有被识别：{text}");
    let text2 = "季度目标定在百分之十五百分之十五百分之十五";
    assert!(is_likely_hallucination(text2, 8_000), "中文循环没有被识别：{text2}");
}

#[test]
fn normal_long_sentence_is_not_flagged_as_loop() {
    let text = "我们今天主要过三件事情第一是上季度的增长复盘第二是下季度的目标第三是新版本的上线节奏";
    assert!(!is_likely_hallucination(text, 20_000));
    assert!(!is_likely_hallucination("谢谢大家谢谢大家", 20_000));
    // 同一个数字短语出现两次是正常表达
    assert!(!is_likely_hallucination("季度目标定在环比增长百分之十五同比增长百分之十五", 20_000));
}

#[test]
fn needs_space_between_only_for_latin() {
    assert!(needs_space_between("hello", "world"));
    assert!(!needs_space_between("你好", "世界"));
    assert!(!needs_space_between("你好", "world"));
    assert!(!needs_space_between("hello", "世界"));
    assert!(!needs_space_between("18", "%"));
}

#[test]
fn punctuation_alone_is_never_content() {
    for text in ["。。。", "，、；：？！", "……——", "...!?", "（）【】", "＊＃％", "♪ ♪ ♪", "・・"] {
        assert!(is_likely_hallucination(text, 5_000), "{text}");
        assert!(is_likely_hallucination(text, 60_000), "{text}");
    }
    assert!(!is_likely_hallucination("好的。", 60_000));
    assert!(!is_likely_hallucination("２０％", 60_000));
    assert!(!is_likely_hallucination("カー", 60_000));
}

#[test]
fn markers_are_judged_by_their_lower_case() {
    assert!(is_no_speech("Silence", "silence"));
    assert!(is_no_speech("BLANK_AUDIO 2", "anything"));
    assert!(is_no_speech("音乐", "音乐"));
    assert!(!is_no_speech("Silence", "quiet"));
    assert!(!is_no_speech("", ""));
    assert!(marks_no_speech(" Music "));
    assert!(!marks_no_speech("Musik"));
}

#[test]
fn doubts_are_judged_by_content_and_lower_case() {
    let content = |t: &str| t.chars().collect::<Vec<char>>();
    let reason = |t: &str, lower: &str, ms: i64| judge(&content(t), lower, ms);
    assert_eq!(reason("好", "好", 1_000).as_deref(), Some("识别服务没有返回有效内容"));
    assert_eq!(reason("谢谢观看", "谢谢观看", 1_500).as_deref(), Some("疑似模型幻听短语"));
    assert_eq!(reason("谢谢观看", "谢谢观看", 6_000), None);
    assert_eq!(reason("谢谢观看", "别的话", 1_500), None);
    assert_eq!(count_phrase_chars("今天开会"), 0);
    assert!(count_phrase_chars("谢谢观看") >= 4);
    assert_eq!(suspect_reason("THANK YOU FOR WATCHING", 1_000).as_deref(), Some("疑似模型幻听短语"));
}

#[test]
fn letters_of_any_script_take_a_space() {
    assert!(needs_space_between("hello", "world"));
    assert!(needs_space_between("été", "à"));
    assert!(!needs_space_between("会议", "开始"));
}
