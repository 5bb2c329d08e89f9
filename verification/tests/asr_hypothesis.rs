//! Merging of successive previews.

use meeting_hear::asr::hypothesis::{common_words, tokenize, HypothesisBuffer};

#[test]
fn first_hypothesis_commits_nothing() {
    let mut hb = HypothesisBuffer::new();
    let a = hb.update("今天我们讨论一下");
    assert_eq!(a.committed, "");
    assert_eq!(a.tentative, "今天我们讨论一下");
    assert!(hb.has_history());
}

#[test]
fn identical_hypothesis_keeps_a_visible_tail() {
    // 两次结果完全一致时，最长公共前缀就是全文；但我们故意少定稿一个 token，
    // 这样 UI 上始终有一段灰色尾巴，用户能看到"正在识别"而不是文字忽然变黑。
    let mut hb = HypothesisBuffer::new();
    hb.update("今天我们讨论一下");
    let a = hb.update("今天我们讨论一下");
    assert_eq!(a.committed, "今天我们讨论一");
    assert_eq!(a.tentative, "下");
    assert_eq!(a.full(), "今天我们讨论一下");
}

#[test]
fn tail_is_never_empty_when_there_is_text() {
    // 这是「边说边出字」的观感保证：只要识别出了内容，就必须有未确认尾巴
    let mut hb = HypothesisBuffer::new();
    hb.update("季度复盘会议");
    for text in [
        "季度复盘会议",
        "季度复盘会议开始",
        "季度复盘会议开始了",
        "季度复盘会议开始了我们",
    ] {
        let a = hb.update(text);
        assert!(
            !a.tentative.is_empty(),
            "「{text}」的尾巴不应为空：{a:?}"
        );
        assert_eq!(a.full(), text);
    }
}

#[test]
fn growing_hypothesis_commits_only_the_stable_prefix() {
    let mut hb = HypothesisBuffer::new();
    hb.update("今天我们讨论三个议题");
    let a = hb.update("今天我们讨论三个议题第一个是增长");
    // 最后一个一致 token（"题"）保留在尾巴里
    assert_eq!(a.committed, "今天我们讨论三个议");
    assert_eq!(a.tentative, "题第一个是增长");
    assert_eq!(a.full(), "今天我们讨论三个议题第一个是增长");
}

#[test]
fn corrected_tail_is_not_committed() {
    let mut hb = HypothesisBuffer::new();
    hb.update("我们这季度增长了百分之十八");
    let a = hb.update("我们这季度增长了百分之八十");
    // 「百分之」之前一致，之后的分歧不能定稿（"之"作为最后一个一致 token 留在尾巴里）
    assert_eq!(a.committed, "我们这季度增长了百分");
    assert_eq!(a.tentative, "之八十");
}

#[test]
fn punctuation_differences_do_not_break_agreement() {
    let mut hb = HypothesisBuffer::new();
    hb.update("我们先看复盘");
    let a = hb.update("我们先看复盘，然后是目标");
    assert_eq!(a.committed, "我们先看复");
    assert!(a.tentative.contains("盘，然后是目标"), "实际：{:?}", a);
}

#[test]
fn english_words_are_not_committed_mid_word() {
    let mut hb = HypothesisBuffer::new();
    hb.update("we should review the quart");
    let a = hb.update("we should review the quarterly report");
    // 不能把半个单词 "quart" 定稿成 "quart" 再接上 "erly"
    assert_eq!(a.committed, "we should review");
    assert_eq!(a.tentative, "the quarterly report");
}

#[test]
fn english_word_agreement_works_across_calls() {
    let mut hb = HypothesisBuffer::new();
    hb.update("we should review the quarterly report");
    let a = hb.update("we should review the quarterly report and goals");
    assert_eq!(a.committed, "we should review the quarterly");
    assert_eq!(a.tentative, "report and goals");
}

#[test]
fn empty_input_is_handled() {
    let mut hb = HypothesisBuffer::new();
    hb.update("有内容");
    let a = hb.update("");
    assert!(a.is_empty());
    let a = hb.update("   ");
    assert!(a.is_empty());
}

#[test]
fn reset_clears_history() {
    let mut hb = HypothesisBuffer::new();
    hb.update("第一句话");
    hb.reset();
    assert!(!hb.has_history());
    let a = hb.update("第一句话");
    assert_eq!(a.committed, "");
}

#[test]
fn committed_never_starts_with_space() {
    let mut hb = HypothesisBuffer::new();
    hb.update("hello world");
    let a = hb.update("hello world again");
    assert_eq!(a.committed, "hello");
    assert_eq!(a.tentative, "world again");
    assert!(!a.tentative.starts_with(' '), "尾巴不应以空格开头：{:?}", a.tentative);
}

#[test]
fn mixed_chinese_english_and_numbers() {
    let mut hb = HypothesisBuffer::new();
    hb.update("我们的 Q3 营收增长 18%");
    let a = hb.update("我们的 Q3 营收增长 18%，主要来自企业版");
    // 最后一个一致的 token（"18"）留在尾巴里，逗号不参与比较
    assert_eq!(a.committed, "我们的 Q3 营收增长");
    assert!(a.tentative.starts_with("18%"), "实际：{:?}", a.tentative);
    assert!(a.tentative.contains("主要来自企业版"));
}

#[test]
fn punctuation_right_after_a_committed_token_is_included() {
    let mut hb = HypothesisBuffer::new();
    hb.update("营收增长 18%");
    let a = hb.update("营收增长 18%主要来自企业版");
    assert_eq!(a.committed, "营收增长");
    assert_eq!(a.tentative, "18%主要来自企业版");
}

#[test]
fn case_insensitive_for_latin() {
    let mut hb = HypothesisBuffer::new();
    hb.update("we use Tauri");
    let a = hb.update("We use Tauri for desktop");
    assert_eq!(a.committed, "We use");
}

#[test]
fn tokenizer_skips_punctuation_only() {
    let t = tokenize("你好，world 123！");
    let norms: Vec<&str> = t.iter().map(|x| x.norm.as_str()).collect();
    assert_eq!(norms, vec!["你", "好", "world", "123"]);
    // 字符区间要能正确切回原文
    let chars: Vec<char> = "你好，world 123！".chars().collect();
    let last = t.last().unwrap();
    let last_word: String = chars[last.char_start..last.char_end].iter().collect();
    assert_eq!(last_word, "123");
}

#[test]
fn settled_words_are_the_first_common_ones() {
    let words = |s: &str| -> Vec<String> { tokenize(s).into_iter().map(|t| t.norm).collect() };
    let pairs = [
        ("今天我们讨论", "今天我们，讨论增长"),
        ("Hello, brave new world", "hello brave NEW planet"),
        ("", "刚开始"),
        ("甲乙", "丙丁"),
    ];
    for (prev, next) in pairs {
        let mut hb = HypothesisBuffer::new();
        hb.update(prev);
        let a = hb.update(next);
        let (p, n) = (words(prev), words(next));
        let common = p.iter().zip(n.iter()).take_while(|(x, y)| x == y).count();
        assert_eq!(words(&a.committed), n[..common.saturating_sub(1)].to_vec(), "{next}");
        assert_eq!(words(&a.tentative)[0], n[common.saturating_sub(1)], "{next}");
    }
}

#[test]
fn words_are_compared_without_regard_to_case() {
    let a = tokenize("We use Rust, 会议");
    let b = tokenize("we USE rust 会场");
    assert_eq!(a.len(), 5);
    assert_eq!(a[2].norm, "rust");
    assert_eq!(common_words(&a, &b), 4);
    assert_eq!(common_words(&a, &tokenize("ÉTÉ")), 0);
    assert_eq!(tokenize("ÉTÉ")[0].norm, "été");
}
