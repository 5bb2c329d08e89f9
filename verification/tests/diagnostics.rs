//! The self-check.

use meeting_hear::ai::client::ConnectionTest;
use meeting_hear::asr::client::AsrConnectionTest;
use meeting_hear::audio::capture::{AudioSourceInfo, SourceKind};
use meeting_hear::audio::loopback::{list_monitors, MonitorListing};
use meeting_hear::diagnostics::{
    ai_connection_line, ai_untested_line, asr_connection_line, check_lines, exit_code,
    format_bytes, parse_args, render_report, wants_check, Machine,
};
use meeting_hear::settings::Settings;

fn args(list: &[&str]) -> Vec<String> {
    list.iter().map(|s| s.to_string()).collect()
}

fn machine() -> Machine {
    Machine {
        version: "1.0.0".into(),
        os: "linux".into(),
        arch: "x86_64".into(),
        data_dir: "/data".into(),
        dir_ok: true,
        sessions: 3,
    }
}

fn mic(label: &str) -> AudioSourceInfo {
    AudioSourceInfo {
        id: format!("mic:{label}"),
        kind: SourceKind::Microphone,
        label: label.into(),
        detail: "x".into(),
        is_default: false,
        available: true,
        note: None,
    }
}

#[test]
fn bytes_formatting() {
    assert_eq!(format_bytes(0), "0 B");
    assert_eq!(format_bytes(512), "512 B");
    assert_eq!(format_bytes(1536), "1.5 KB");
    assert_eq!(format_bytes(487_601_967), "465 MB");
    assert_eq!(format_bytes(1_624_555_275), "1.5 GB");
}

#[test]
fn bytes_are_formatted_like_doubles() {
    let expected = |bytes: u64| -> String {
        let units = ["B", "KB", "MB", "GB", "TB"];
        let mut v = bytes as f64;
        let mut i = 0;
        while v >= 1024.0 && i < 4 {
            v /= 1024.0;
            i += 1;
        }
        if v >= 100.0 {
            format!("{v:.0} {}", units[i])
        } else {
            format!("{v:.1} {}", units[i])
        }
    };
    let mut n: u64 = 1;
    for i in 0..63u64 {
        for d in [0u64, 1, 2, 51, 102, 511, 512, 513, 1023] {
            for x in [n, n + d, n + n / 2 + d, n + n / 20] {
                assert_eq!(format_bytes(x), expected(x), "{x}");
            }
        }
        if i < 62 {
            n *= 2;
        }
    }
    assert_eq!(format_bytes(u64::MAX), expected(u64::MAX));
}

#[test]
fn arguments_are_read() {
    let a = parse_args(&args(&["--check", "--json", "--data-dir", "/x", "--data-dir", "/y"]));
    assert!(a.json && !a.with_ai);
    assert_eq!(a.data_dir.as_deref(), Some("/x"));
    let a = parse_args(&args(&["--ai", "--data-dir"]));
    assert!(a.with_ai && !a.json);
    assert_eq!(a.data_dir, None);
    assert!(wants_check(&args(&["-c"])) && wants_check(&args(&["x", "check"])));
    assert!(wants_check(&args(&["--check"])) && !wants_check(&args(&["--checks"])));
}

#[test]
fn a_machine_in_order_passes() {
    let s = Settings::default();
    let mut sources = vec![mic("甲"), mic("乙")];
    sources.extend(list_monitors(
        &MonitorListing::Table("0\ta.b.monitor\tm\ts16le\tIDLE".into()),
        "",
    ));
    let lines = check_lines(&machine(), &s.asr, &s.ai, &sources);
    assert_eq!(lines.len(), 8);
    assert_eq!(lines[0].value, "MeetingHear 1.0.0 · linux · x86_64");
    assert_eq!(lines[2].value, "3 条");
    assert_eq!(lines[5].value, "甲、乙");
    assert_eq!(lines[6].value, "系统声音（b）");
    assert!(lines.iter().all(|l| l.hint.is_none()));
    assert_eq!(exit_code(&lines), 0);
    let report = render_report(&lines);
    assert!(report.starts_with("MeetingHear 自检\n──"));
    assert!(report.contains("✓ 麦克风                  甲、乙\n"), "{report}");
    assert!(report.ends_with("关键项检查通过，可以开始录音。\n"));
}

#[test]
fn what_is_wrong_is_said_with_a_hint() {
    let mut s = Settings::default();
    s.asr.providers[0].base_url.clear();
    s.ai.enabled = false;
    let mut m = machine();
    m.dir_ok = false;
    let sources = list_monitors(&MonitorListing::Missing, "");
    let lines = check_lines(&m, &s.asr, &s.ai, &sources);
    assert_eq!(lines[1].ok, Some(false));
    assert!(lines[1].hint.as_deref().unwrap().contains("--data-dir"));
    assert!(lines[3].value.ends_with(" · 配置不完整（缺少 Base URL 或模型名）"));
    assert_eq!(lines[5].value, "未检测到可用麦克风");
    assert!(lines[6].hint.as_deref().unwrap().contains("pactl"));
    assert!(lines[7].hint.as_deref().unwrap().contains("API Key"));
    assert_eq!(exit_code(&lines), 1);
    let report = render_report(&lines);
    assert!(report.contains("\n                       └─ 目录不可写"), "{report}");
    assert!(report.ends_with("存在未通过的关键项，请按上面的提示处理后重试。\n"));
}

#[test]
fn connections_are_reported() {
    let t = AsrConnectionTest {
        ok: true,
        latency_ms: 250,
        model: "m".into(),
        sample: " ".into(),
        error: None,
    };
    let l = asr_connection_line(&t);
    assert_eq!(l.value, "正常（250 ms，（静音测试，返回空文本属正常））");
    assert_eq!(l.ok, Some(true));
    let t = AsrConnectionTest { ok: false, error: Some("x".into()), ..t };
    assert_eq!(asr_connection_line(&t).value, "失败：x");
    let t = ConnectionTest {
        ok: true,
        latency_ms: 9,
        model: "m".into(),
        sample: "好".into(),
        error: None,
        models: vec![],
    };
    assert_eq!(ai_connection_line(&t).value, "正常（9 ms，返回：好）");
    let l = ai_untested_line("不行");
    assert_eq!((l.value.as_str(), l.ok), ("不行", Some(false)));
}
