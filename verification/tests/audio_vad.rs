//! Speech detection.

use meeting_hear::audio::vad::{
    clamp_overlaps, energy_detect, energy_detect_streaming, merge_internal_silences,
    remove_short_runs, spans_from_levels, spans_of_flags, Acoustics, EnergyState, SpeechSpan,
    VadEngine, RATE,
};
use meeting_hear::num::{Double, Single};
use meeting_hear::settings::VadSettings;

fn single(x: f32) -> Single {
    Single { bits: x.to_bits() }
}

fn float(x: Single) -> f32 {
    f32::from_bits(x.bits)
}

fn singles(v: &[f32]) -> Vec<Single> {
    v.iter().map(|x| single(*x)).collect()
}

fn amplitude_db(a: f32) -> f32 {
    20.0 * a.max(1e-9).log10()
}

fn rms(samples: &[Single]) -> f32 {
    let mut sum = 0.0f64;
    for s in samples {
        sum += (float(*s) as f64) * (float(*s) as f64);
    }
    (sum / samples.len() as f64).sqrt() as f32
}

fn level(samples: &[Single]) -> Single {
    if samples.is_empty() {
        return single(-120.0);
    }
    single(amplitude_db(rms(samples)))
}

fn percentile(values: &[f32], p: f32) -> f32 {
    if values.is_empty() {
        return -120.0;
    }
    let mut sorted: Vec<f32> = values.to_vec();
    sorted.sort_by(|a, b| a.partial_cmp(b).unwrap());
    let idx = ((sorted.len() - 1) as f32 * p.clamp(0.0, 1.0)).round() as usize;
    sorted[idx]
}

fn floor(levels: &[Single]) -> Single {
    let dbs: Vec<f32> = levels.iter().map(|x| float(*x)).collect();
    single(percentile(&dbs, 0.10))
}

fn sum(a: Single, b: Single) -> Single {
    single(float(a) + float(b))
}

fn energy(samples: &[Single]) -> Double {
    let mut e = 0.0f64;
    for s in samples {
        e += (float(*s) as f64) * (float(*s) as f64);
    }
    Double { bits: e.to_bits() }
}

type Floats = Acoustics<
    fn(&[Single]) -> Single,
    fn(&[Single]) -> Single,
    fn(Single, Single) -> Single,
    fn(&[Single]) -> Double,
>;

fn floats() -> Floats {
    Acoustics { level, floor, sum, energy }
}

fn detect(w: &[f32], threshold: f32, speech: u32, silence: u32, pad: u32) -> Vec<SpeechSpan> {
    energy_detect(&singles(w), single(threshold), speech, silence, pad, &floats())
}

fn tone(freq: f32, ms: u32, amp: f32) -> Vec<f32> {
    let n = (RATE as f32 * ms as f32 / 1000.0) as usize;
    (0..n)
        .map(|i| amp * (2.0 * std::f32::consts::PI * freq * i as f32 / RATE as f32).sin())
        .collect()
}

fn noise(ms: u32, amp: f32) -> Vec<f32> {
    // 用确定性双音模拟底噪，避免测试依赖随机数
    let n = (RATE as f32 * ms as f32 / 1000.0) as usize;
    (0..n)
        .map(|i| {
            let t = i as f32 / RATE as f32;
            amp * ((2.0 * std::f32::consts::PI * 137.0 * t).sin()
                + (2.0 * std::f32::consts::PI * 311.0 * t).sin())
                / 2.0
        })
        .collect()
}

#[test]
fn silence_has_no_speech_spans() {
    let w = noise(4_000, 0.002); // 约 -60dB 的底噪
    let spans = detect(&w, 9.0, 250, 600, 200);
    assert!(spans.is_empty(), "静音窗口不应检测到语音：{spans:?}");
}

#[test]
fn detects_single_utterance_and_its_position() {
    // 1s 静音 + 1.5s 语音 + 1.5s 静音
    let mut w = noise(1_000, 0.002);
    w.extend(tone(440.0, 1_500, 0.3));
    w.extend(noise(1_500, 0.002));

    let spans = detect(&w, 9.0, 250, 600, 200);
    assert_eq!(spans.len(), 1, "应只检测到一段语音：{spans:?}");
    let s = spans[0];
    // 真实语音在 1000~2500ms，两侧各扩 200ms 留白 → 期望 800~2700ms
    assert!((s.start_ms - 800).abs() <= 80, "起点偏差过大：{s:?}");
    assert!((s.end_ms - 2_700).abs() <= 80, "终点偏差过大：{s:?}");
    assert_eq!(s.duration_ms(), 1_900);
}

#[test]
fn zero_padding_does_not_create_phantom_speech() {
    // 留白不能超出窗口边界，也不应在纯静音窗口里凭空造出语音
    let w = noise(2_000, 0.002);
    let spans = detect(&w, 9.0, 250, 600, 400);
    assert!(spans.is_empty(), "留白不应制造语音段：{spans:?}");
}

#[test]
fn short_pause_inside_a_sentence_is_merged() {
    // 语音 800ms + 停顿 300ms + 语音 800ms：停顿 < min_silence(600ms) 应合并成一段
    let mut w = tone(440.0, 800, 0.3);
    w.extend(noise(300, 0.002));
    w.extend(tone(440.0, 800, 0.3));
    let spans = detect(&w, 9.0, 250, 600, 200);
    assert_eq!(spans.len(), 1, "句内停顿不应断句：{spans:?}");
}

#[test]
fn leading_and_trailing_silence_are_preserved() {
    // 回归测试：曾经句首/句尾的静音会被"合并短静音"填成语音，
    // 导致调用方无法判断话是否说完（last_end 永远等于窗口末端）。
    let mut w = noise(400, 0.002);
    w.extend(tone(440.0, 1_000, 0.3));
    w.extend(noise(400, 0.002));

    let spans = detect(&w, 9.0, 250, 600, 0);
    assert_eq!(spans.len(), 1, "应只有一段语音：{spans:?}");
    let s = spans[0];
    // 末尾必须明显早于窗口结束（窗口 1800ms，语音到 1400ms）
    assert!(
        s.end_ms <= 1_500,
        "语音终点不应被拉到窗口末端：{s:?}（窗口 1800ms）"
    );
    assert!(s.start_ms >= 300, "语音起点不应被拉到窗口开头：{s:?}");
}

#[test]
fn spans_never_overlap_after_padding() {
    // 两段语音间隔 800ms，留白各 200ms：加完留白仍然不能重叠
    let mut w = tone(440.0, 800, 0.3);
    w.extend(noise(800, 0.002));
    w.extend(tone(440.0, 800, 0.3));
    let mut engine = VadEngine::new(&VadSettings {
        min_silence_ms: 600,
        speech_pad_ms: 400, // 故意放大留白，制造重叠压力
        ..Default::default()
    });
    let spans = engine.detect(&singles(&w), false, &floats());
    assert!(spans.len() >= 2, "应至少两段：{spans:?}");
    for i in 1..spans.len() {
        assert!(
            spans[i].start_ms >= spans[i - 1].end_ms,
            "语音段重叠了：{:?}",
            spans
        );
    }
}

#[test]
fn long_pause_splits_into_two_utterances() {
    let mut w = tone(440.0, 800, 0.3);
    w.extend(noise(1_200, 0.002));
    w.extend(tone(440.0, 800, 0.3));
    let spans = detect(&w, 9.0, 250, 600, 200);
    assert_eq!(spans.len(), 2, "长停顿应断成两句：{spans:?}");
    assert!(spans[0].end_ms <= spans[1].start_ms);
}

#[test]
fn very_short_blip_is_ignored() {
    // 100ms 的咔哒声短于 min_speech(250ms)，应被忽略
    let mut w = noise(1_000, 0.002);
    w.extend(tone(1_000.0, 100, 0.5));
    w.extend(noise(1_000, 0.002));
    let spans = detect(&w, 9.0, 250, 600, 200);
    assert!(spans.is_empty(), "短促噪声不应触发识别：{spans:?}");
}

#[test]
fn loud_noise_floor_does_not_swallow_speech() {
    // 环境底噪较高（约 -40dB）时仍能检出明显高于底噪的语音
    let mut w = noise(1_500, 0.01);
    w.extend(tone(440.0, 1_200, 0.5));
    w.extend(noise(1_500, 0.01));
    let spans = detect(&w, 9.0, 250, 600, 200);
    assert_eq!(spans.len(), 1, "嘈杂环境下应能检出语音：{spans:?}");
}

#[test]
fn empty_and_tiny_windows_are_safe() {
    assert!(detect(&[], 9.0, 250, 600, 200).is_empty());
    assert!(detect(&[0.0; 100], 9.0, 250, 600, 200).is_empty());
}

#[test]
fn continuous_speech_does_not_raise_the_noise_floor() {
    // 回归测试：如果每轮都从当前窗口重估噪声底，一段没有停顿的连续语音
    // 会把噪声底一起抬上去，语音就再也检不出来（整段录音都不会断句）。
    let mut engine = VadEngine::new(&VadSettings::default());

    // 先来 1 秒静音把噪声底压到最低
    let mut window = noise(1_000, 0.002);
    let spans = engine.detect(&singles(&window), false, &floats());
    assert!(spans.is_empty());

    // 再持续加长连续语音，每一轮都必须能检出「说到现在」
    for extra in 1..=12 {
        window.extend(tone(440.0, 500, 0.3));
        let spans = engine.detect(&singles(&window), true, &floats());
        let last_end = spans.last().map(|s| s.end_ms).unwrap_or(0);
        let window_ms = window.len() as i64 * 1000 / RATE as i64;
        assert!(
            !spans.is_empty(),
            "第 {extra} 轮（窗口 {window_ms} ms）连续语音没有检出：{spans:?}"
        );
        assert!(
            last_end >= window_ms - 300,
            "第 {extra} 轮语音终点没有延伸到窗口末端：{last_end} vs {window_ms}"
        );
        // 窗口本身在变长，语音长度也要跟着变长
        window = window[(window.len() - 8_000)..].to_vec(); // 只保留最近 0.5 秒 + 新语音
    }
}

#[test]
fn noise_floor_adapts_to_a_noisier_room() {
    let mut state = EnergyState::new();
    // 安静房间
    let quiet = noise(2_000, 0.002);
    energy_detect_streaming(&singles(&quiet), single(9.0), 250, 600, 200, &mut state, false, &floats());
    let quiet_floor = float(state.noise_db());
    // 换到明显更吵的房间（底噪 -40dB 左右）
    let loud = noise(4_000, 0.01);
    energy_detect_streaming(&singles(&loud), single(9.0), 250, 600, 200, &mut state, false, &floats());
    let loud_floor = float(state.noise_db());
    assert!(
        loud_floor > quiet_floor,
        "噪声底应当随环境变吵而上升：{quiet_floor} → {loud_floor}"
    );
    assert!(loud_floor < -20.0, "上升幅度不应失控：{loud_floor}");

    // 说话期间必须冻结，不能继续跟随窗口里的语音电平
    let frozen_before = state.noise_db();
    let speech = tone(440.0, 3_000, 0.5);
    energy_detect_streaming(&singles(&speech), single(9.0), 250, 600, 200, &mut state, true, &floats());
    assert_eq!(
        state.noise_db(),
        frozen_before,
        "说话期间噪声底不应变化"
    );
}

#[test]
fn engine_reports_its_name() {
    let engine = VadEngine::new(&VadSettings::default());
    assert_eq!(engine.name(), "energy");
}

#[test]
fn energy_engine_detect_end_to_end() {
    let cfg = VadSettings::default();
    let mut engine = VadEngine::new(&cfg);
    let mut w = noise(800, 0.002);
    w.extend(tone(440.0, 1_000, 0.3));
    w.extend(noise(800, 0.002));
    let spans = engine.detect(&singles(&w), false, &floats());
    assert_eq!(spans.len(), 1);
}

fn flags(s: &str) -> Vec<bool> {
    s.chars().map(|c| c == '#').collect()
}

#[test]
fn short_runs_go_and_inner_silences_are_filled() {
    assert_eq!(remove_short_runs(&flags("#..##..###"), 2, true), flags("...##..###"));
    assert_eq!(remove_short_runs(&flags("##.##...##"), 2, false), flags("#####...##"));
    assert_eq!(merge_internal_silences(&flags("..##.##..#."), 2), flags("..#####..#."));
    assert_eq!(merge_internal_silences(&flags("...."), 9), flags("...."));
}

#[test]
fn flags_become_padded_spans() {
    let spans = spans_of_flags(&flags("..##...#"), 1);
    assert_eq!(
        spans,
        vec![
            SpeechSpan { start_ms: 20, end_ms: 100 },
            SpeechSpan { start_ms: 120, end_ms: 160 }
        ]
    );
}

#[test]
fn overlapping_spans_are_cut() {
    let spans = clamp_overlaps(&vec![
        SpeechSpan { start_ms: 0, end_ms: 500 },
        SpeechSpan { start_ms: 400, end_ms: 450 },
        SpeechSpan { start_ms: 460, end_ms: 900 },
    ]);
    assert_eq!(
        spans,
        vec![
            SpeechSpan { start_ms: 0, end_ms: 500 },
            SpeechSpan { start_ms: 500, end_ms: 500 },
            SpeechSpan { start_ms: 500, end_ms: 900 }
        ]
    );
}

#[test]
fn levels_above_the_threshold_are_speech() {
    let levels: Vec<Single> = [-70.0, -30.0, -30.0, -70.0, -56.0]
        .iter()
        .map(|x| single(*x))
        .collect();
    let spans = spans_from_levels(&levels, single(-60.0), 20, 20, 0);
    // -56 is above the threshold, but as good as silence
    assert_eq!(spans, vec![SpeechSpan { start_ms: 20, end_ms: 60 }]);
}

#[test]
fn noise_floor_stays_in_its_range() {
    let mut s = EnergyState::new();
    assert!(!s.is_ready());
    assert_eq!(float(s.noise_db()), -70.0);
    s.observe(single(-3.0));
    assert_eq!(float(s.noise_db()), -12.0);
    s.observe(single(-99.0));
    assert_eq!(float(s.noise_db()), -70.0);
}
