//! Formatting and truncation.

use meeting_hear::util::{
    format_clock, format_short, now_ms, sanitize_filename, should_bypass_proxy, truncate_chars,
    truncate_middle,
};

#[test]
fn clock_format() {
    assert_eq!(format_clock(0), "00:00:00");
    assert_eq!(format_clock(3_661_000), "01:01:01");
    assert_eq!(format_short(65_000), "01:05");
    assert_eq!(format_short(3_661_000), "01:01:01");
}

#[test]
fn truncation_is_char_safe() {
    let s = "会议纪要内容";
    assert_eq!(truncate_chars(s, 3), "会议纪…");
    assert_eq!(truncate_chars(s, 99), s);
}

#[test]
fn middle_truncation_keeps_both_ends() {
    let s: String = (0..100).map(|i| char::from(b'a' + (i % 26) as u8)).collect();
    let out = truncate_middle(&s, 20);
    assert!(out.starts_with(&s[..1]));
    assert!(out.contains("省略"));
    assert!(out.ends_with(&s[s.len() - 1..]));
}

#[test]
fn filename_sanitize() {
    assert_eq!(sanitize_filename("2024/03/01 周会:复盘", "会议"), "2024_03_01 周会_复盘");
    assert_eq!(sanitize_filename("   ", "会议"), "会议");
}

#[test]
fn middle_truncation_says_how_much_is_missing() {
    let s = "一二三四五六七八九十";
    assert_eq!(
        truncate_middle(s, 6),
        "一二三四\n……（中间省略 10 字中的 4 字）……\n九十"
    );
    assert_eq!(truncate_middle(s, 10), s);
}

#[test]
fn local_and_private_hosts_need_no_proxy() {
    assert!(should_bypass_proxy("http://localhost:8080/inference"));
    assert!(should_bypass_proxy("http://127.0.0.1:1/x"));
    assert!(!should_bypass_proxy("https://api.groq.com/openai/v1"));
    assert!(!should_bypass_proxy("https://localhost.evil.com/x"));
    assert!(!should_bypass_proxy("这不是地址"));
}

#[test]
fn the_clock_is_past_the_year_2020() {
    assert!(now_ms() > 1_577_836_800_000);
}
