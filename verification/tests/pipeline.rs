//! Segmentation, job queue, speakers.

use meeting_hear::audio::capture::{SourceKind, SourceLevel};
use meeting_hear::audio::vad::{Acoustics, FrameEnergy, RATE};
use meeting_hear::num::{Double, Single};
use meeting_hear::pipeline::live::{
    cut_pieces, levels_in_order, note_progress, settings_for_cutting, single_source,
    speaker_for_single_source, Pace,
};
use meeting_hear::pipeline::queue::JobQueue;
use meeting_hear::pipeline::segmenter::{
    AsrJob, Segmenter, SegmenterAction, SourceShare, PRE_ROLL_MS,
};
use meeting_hear::session::{Session, SessionConfig, Speaker};
use meeting_hear::settings::{AsrSettings, VadSettings};

fn single(x: f32) -> Single {
    Single { bits: x.to_bits() }
}

fn float(x: Single) -> f32 {
    f32::from_bits(x.bits)
}

fn singles(v: &[f32]) -> Vec<Single> {
    v.iter().map(|x| single(*x)).collect()
}

fn amplitude_db(a: f32) -> f32 {
    20.0 * a.max(1e-9).log10()
}

fn rms(samples: &[Single]) -> f32 {
    let mut sum = 0.0f64;
    for s in samples {
        sum += (float(*s) as f64) * (float(*s) as f64);
    }
    (sum / samples.len() as f64).sqrt() as f32
}

fn level(samples: &[Single]) -> Single {
    if samples.is_empty() {
        return single(-120.0);
    }
    single(amplitude_db(rms(samples)))
}

fn percentile(values: &[f32], p: f32) -> f32 {
    if values.is_empty() {
        return -120.0;
    }
    let mut sorted: Vec<f32> = values.to_vec();
    sorted.sort_by(|a, b| a.partial_cmp(b).unwrap());
    let idx = ((sorted.len() - 1) as f32 * p.clamp(0.0, 1.0)).round() as usize;
    sorted[idx]
}

fn floor(levels: &[Single]) -> Single {
    let dbs: Vec<f32> = levels.iter().map(|x| float(*x)).collect();
    single(percentile(&dbs, 0.10))
}

fn sum(a: Single, b: Single) -> Single {
    single(float(a) + float(b))
}

fn energy(samples: &[Single]) -> Double {
    let mut e = 0.0f64;
    for s in samples {
        e += (float(*s) as f64) * (float(*s) as f64);
    }
    Double { bits: e.to_bits() }
}

type Floats = Acoustics<
    fn(&[Single]) -> Single,
    fn(&[Single]) -> Single,
    fn(Single, Single) -> Single,
    fn(&[Single]) -> Double,
>;

fn floats() -> Floats {
    Acoustics { level, floor, sum, energy }
}

fn analyze(samples: &[f32]) -> FrameEnergy {
    let v = singles(samples);
    let r = if v.is_empty() { 0.0 } else { rms(&v) };
    let peak = samples.iter().fold(0.0f32, |m, x| m.max(x.abs()));
    FrameEnergy { rms: single(r), peak: single(peak), db: level(&v) }
}

/// The energy of all sources and the microphone's share of it.
fn measure(frames: &[(SourceKind, Single)]) -> (Double, Double) {
    let mut mic = 0.0f64;
    let mut other = 0.0f64;
    for (kind, rms) in frames {
        let e = (float(*rms) as f64) * (float(*rms) as f64);
        match kind {
            SourceKind::Microphone => mic += e,
            SourceKind::Loopback => other += e,
        }
    }
    let total = mic + other;
    (Double { bits: total.to_bits() }, Double { bits: (mic / total).to_bits() })
}


const FRAME: usize = 1_600; // 100ms @16kHz

fn tone_frame(amp: f32, offset: usize) -> Vec<f32> {
    (0..FRAME)
        .map(|i| {
            let t = (offset + i) as f32 / RATE as f32;
            amp * (2.0 * std::f32::consts::PI * 440.0 * t).sin()
        })
        .collect()
}

fn quiet_frame() -> Vec<f32> {
    vec![0.0; FRAME]
}

fn levels_for(samples: &[f32]) -> Vec<(String, SourceKind, FrameEnergy)> {
    vec![(
        "mic:test".to_string(),
        SourceKind::Microphone,
        analyze(samples),
    )]
}

fn drive(seg: &mut Segmenter, frames: &[Vec<f32>]) -> Vec<SegmenterAction> {
    let mut actions = Vec::new();
    for f in frames {
        let levels = levels_for(f);
        actions.extend(seg.push_frame(&singles(f), &levels, &floats()));
    }
    actions
}

fn finals(actions: &[SegmenterAction]) -> Vec<(i64, i64, usize)> {
    actions
        .iter()
        .filter_map(|a| match a {
            SegmenterAction::Job(AsrJob::Final { start_ms, end_ms, samples, .. }) => {
                Some((*start_ms, *end_ms, samples.len()))
            }
            _ => None,
        })
        .collect()
}

fn test_vad() -> VadSettings {
    VadSettings {
        min_silence_ms: 600,
        min_speech_ms: 250,
        speech_pad_ms: 200,
        max_utterance_ms: 25_000,
        ..Default::default()
    }
}

/// 构造「静音 → 语音 → 静音」的音频，返回帧与语音的真实起止（毫秒）
fn speech_clip(speech_frames: usize) -> (Vec<Vec<f32>>, i64, i64) {
    let lead = 10usize;
    let tail = 15usize;
    let mut frames = Vec::new();
    for _ in 0..lead {
        frames.push(quiet_frame());
    }
    for i in 0..speech_frames {
        frames.push(tone_frame(0.3, i * FRAME));
    }
    for _ in 0..tail {
        frames.push(quiet_frame());
    }
    let start = (lead * 100) as i64;
    let end = ((lead + speech_frames) * 100) as i64;
    (frames, start, end)
}


#[test]
fn segmenter_emits_exactly_one_sane_segment() {
    let cfg = test_vad();
    let mut seg = Segmenter::new(&cfg, true);
    let (frames, speech_start, speech_end) = speech_clip(30); // 3 秒语音
    let actions = drive(&mut seg, &frames);
    let flushed = seg.flush(&floats());
    let mut all = actions;
    all.extend(flushed);

    let f = finals(&all);
    assert_eq!(f.len(), 1, "应只定稿一句话，实际：{f:?}");
    let (start, end, samples) = f[0];
    let utt_ms = samples as i64 * 1000 / RATE as i64;

    // 起点应落在真实语音起点之前一点（有 400ms 前滚）
    assert!(
        (start - (speech_start - PRE_ROLL_MS)).abs() <= 250,
        "起点偏差过大：{start} vs {}",
        speech_start - PRE_ROLL_MS
    );
    // 终点应接近真实语音终点（含 speech_pad 留白）
    assert!(
        (end - speech_end).abs() <= 500,
        "终点偏差过大：{end} vs {speech_end}"
    );
    // 关键：不能出现退化的极短片段
    assert!(
        end - start >= 2_500,
        "片段过短：{start} → {end}（音频实际 {utt_ms} ms）"
    );
    // 终点必须和音频长度大致吻合
    // 段长不应超过音频缓冲长度，且必须覆盖真实语音时长
    assert!(
        end - start <= utt_ms,
        "段长不应超过音频缓冲：段长 {} ms，缓冲 {utt_ms} ms",
        end - start
    );
    assert!(end - start >= speech_end - speech_start, "段长应覆盖真实语音");
}

#[test]
fn degenerate_end_is_replaced_by_audio_length() {
    // 回归测试：VAD 某轮返回空片段时，曾经会用一个「几乎等于起点」的终点去定稿，
    // 产生 end - start == 1ms 的垃圾片段，同时让 speech_ms 大于音频总时长。
    let cfg = test_vad();
    let mut seg = Segmenter::new(&cfg, true);
    let (frames, _, _) = speech_clip(20);
    let mut actions = Vec::new();
    for f in &frames[..30] {
        let levels = levels_for(f);
        actions.extend(seg.push_frame(&singles(f), &levels, &floats()));
    }
    assert!(seg.is_in_speech(), "此时应当处于说话中");

    let start = seg.utt_start_ms();
    let utt_ms = seg.utt_ms();
    // 故意传入一个荒谬的终点（模拟 VAD 返回空结果时的 last_end = 0）
    seg.finalize(start + 1, &mut actions);

    let f = finals(&actions);
    assert_eq!(f.len(), 1);
    let (s, e, _) = f[0];
    assert!(
        e - s >= utt_ms * 6 / 10,
        "荒谬终点没有被兜底：{s} → {e}，音频长度 {utt_ms} ms"
    );
}

#[test]
fn speech_ms_never_exceeds_audio_ms() {
    let cfg = test_vad();
    let mut seg = Segmenter::new(&cfg, true);
    // 三段语音夹着静音
    let mut frames = Vec::new();
    for _ in 0..8 {
        frames.push(quiet_frame());
    }
    for round in 0..3 {
        for i in 0..15 {
            frames.push(tone_frame(0.3, (round * 15 + i) * FRAME));
        }
        for _ in 0..10 {
            frames.push(quiet_frame());
        }
    }
    let actions = drive(&mut seg, &frames);
    let mut all = actions;
    all.extend(seg.flush(&floats()));

    assert!(
        seg.total_speech_ms() <= seg.audio_ms(),
        "语音时长 {} 不应大于音频总时长 {}",
        seg.total_speech_ms(),
        seg.audio_ms()
    );
    for (s, e, _) in finals(&all) {
        assert!(e > s, "非法片段：{s} → {e}");
        assert!(e <= seg.audio_ms(), "终点超出音频总长：{e} > {}", seg.audio_ms());
    }
    let f = finals(&all);
    assert!(f.len() >= 2, "应识别出多句话，实际 {f:?}");
}

#[test]
fn short_pause_inside_a_sentence_does_not_split() {
    let cfg = test_vad();
    let mut seg = Segmenter::new(&cfg, true);
    let mut frames = Vec::new();
    for _ in 0..10 {
        frames.push(quiet_frame());
    }
    for i in 0..15 {
        frames.push(tone_frame(0.3, i * FRAME));
    }
    // 句内 300ms 自然停顿（短于 min_silence 600ms）
    for _ in 0..3 {
        frames.push(quiet_frame());
    }
    for i in 15..30 {
        frames.push(tone_frame(0.3, i * FRAME));
    }
    for _ in 0..15 {
        frames.push(quiet_frame());
    }
    let actions = drive(&mut seg, &frames);
    let f = finals(&actions);
    assert_eq!(f.len(), 1, "句内停顿不应断句：{f:?}");
}

#[test]
fn long_monologue_is_force_split() {
    let mut cfg = test_vad();
    cfg.max_utterance_ms = 3_000; // 压到 3 秒，方便测试
    let mut seg = Segmenter::new(&cfg, true);
    let mut frames = Vec::new();
    for _ in 0..8 {
        frames.push(quiet_frame());
    }
    // 连续 8 秒语音（中间没有停顿）
    for i in 0..80 {
        let amp = if i % 7 == 0 { 0.1 } else { 0.3 };
        frames.push(tone_frame(amp, i * FRAME));
    }
    for _ in 0..15 {
        frames.push(quiet_frame());
    }
    let actions = drive(&mut seg, &frames);
    let mut all = actions;
    all.extend(seg.flush(&floats()));
    let f = finals(&all);
    assert!(
        f.len() >= 2,
        "超长独白应被强制切成多段，实际 {} 段",
        f.len()
    );
    // 每段都不应超过上限太多，且互相不重叠
    let mut prev_end = -1i64;
    for (s, e, _) in &f {
        assert!(
            *e - *s <= cfg.max_utterance_ms as i64 + 1_000,
            "切分后仍有一段过长：{s} → {e}"
        );
        assert!(*s >= prev_end, "切分后出现时间重叠：{s} < {prev_end}");
        prev_end = *e;
    }
}

#[test]
fn partial_jobs_are_emitted_while_speaking() {
    let cfg = test_vad();
    let mut seg = Segmenter::new(&cfg, true);
    let (frames, _, _) = speech_clip(30);
    let actions = drive(&mut seg, &frames);
    let partials = actions
        .iter()
        .filter(|a| matches!(a, SegmenterAction::Job(AsrJob::Partial { .. })))
        .count();
    // 3 秒语音，每 800ms 一次 → 至少 3 次
    assert!(partials >= 3, "部分结果太少：{partials}");
    // partial 的音频应当随说话不断变长
    let lens: Vec<usize> = actions
        .iter()
        .filter_map(|a| match a {
            SegmenterAction::Job(AsrJob::Partial { samples, .. }) => Some(samples.len()),
            _ => None,
        })
        .collect();
    assert!(lens.windows(2).all(|w| w[1] >= w[0]), "partial 音频应单调增长：{lens:?}");
}

/* ------------------------------ 任务合并 ------------------------------ */

fn dummy_partial(utt_id: u64, len: usize) -> AsrJob {
    AsrJob::Partial {
        utt_id,
        samples: singles(&vec![0.0; len]),
        start_ms: 0,
        preview: 0,
    }
}

fn dummy_final(utt_id: u64) -> AsrJob {
    AsrJob::Final {
        utt_id,
        samples: singles(&vec![0.0; 1600]),
        start_ms: 0,
        end_ms: 1600,
        share: SourceShare::empty(),
    }
}

#[test]
fn job_queue_drops_superseded_partials() {
    let mut q = JobQueue::new();
    q.push(dummy_partial(1, 1600));
    q.push(dummy_partial(1, 3200));
    q.push(dummy_partial(1, 4800));
    assert_eq!(q.len(), 1, "同一句话的旧 partial 应被顶掉");
    match q.pop() {
        Some(AsrJob::Partial { samples, .. }) => assert_eq!(samples.len(), 4800),
        other => panic!("应拿到最新的 partial，实际 {other:?}"),
    }
}

#[test]
fn job_queue_drops_partials_after_final() {
    let mut q = JobQueue::new();
    q.push(dummy_partial(1, 1600));
    q.push(dummy_final(1));
    q.push(dummy_partial(1, 3200)); // 这句话已经定稿，迟到的 partial 必须丢弃
    assert_eq!(q.len(), 1, "定稿后的 partial 应被丢弃");
    assert!(matches!(q.pop(), Some(AsrJob::Final { utt_id: 1, .. })));
    assert!(q.pop().is_none());
}

#[test]
fn job_queue_keeps_different_utterances_in_order() {
    let mut q = JobQueue::new();
    q.push(dummy_partial(1, 1600));
    q.push(dummy_final(1));
    q.push(dummy_partial(2, 1600));
    q.push(dummy_final(2));
    // Final 入队时会清掉同一句话排队的 partial，所以两句的 partial 都已消失
    assert_eq!(q.len(), 2);
    assert!(matches!(q.pop(), Some(AsrJob::Final { utt_id: 1, .. })));
    assert!(matches!(q.pop(), Some(AsrJob::Final { utt_id: 2, .. })));
    assert!(q.pop().is_none());
}

/* ------------------------------ 说话人归属 ------------------------------ */

#[test]
fn speaker_attribution_by_energy_share() {
    let e = |rms: f32| FrameEnergy { rms: single(rms), peak: single(rms), db: single(0.0) };

    let mut only_mic = SourceShare::empty();
    only_mic.add_frame(SourceKind::Microphone, e(0.5));
    assert_eq!(only_mic.speaker(&measure), Speaker::Me);

    let mut only_loop = SourceShare::empty();
    only_loop.add_frame(SourceKind::Loopback, e(0.5));
    assert_eq!(only_loop.speaker(&measure), Speaker::Others);

    let mut both = SourceShare::empty();
    both.add_frame(SourceKind::Microphone, e(0.5));
    both.add_frame(SourceKind::Loopback, e(0.5));
    assert_eq!(both.speaker(&measure), Speaker::Mixed);

    // 麦克风明显占优 → 我
    let mut mic_dominant = SourceShare::empty();
    mic_dominant.add_frame(SourceKind::Microphone, e(1.0));
    mic_dominant.add_frame(SourceKind::Loopback, e(0.2));
    assert_eq!(mic_dominant.speaker(&measure), Speaker::Me);

    // 全程静音 → 未知
    assert_eq!(SourceShare::empty().speaker(&measure), Speaker::Unknown);
}

#[test]
fn single_source_speaker_mapping() {
    assert_eq!(speaker_for_single_source(Some(SourceKind::Microphone)), Speaker::Me);
    assert_eq!(speaker_for_single_source(Some(SourceKind::Loopback)), Speaker::Others);
    assert_eq!(speaker_for_single_source(None), Speaker::Unknown);
}

#[test]
fn vad_engine_is_wired_up() {
    let cfg = test_vad();
    assert_eq!(Segmenter::new(&cfg, true).vad_name(), "energy");
}

#[test]
fn levels_follow_the_order_of_the_sources() {
    let sources = vec![
        ("mic:a".to_string(), SourceKind::Microphone),
        ("loopback:b".to_string(), SourceKind::Loopback),
    ];
    let loud = FrameEnergy { rms: single(0.5), peak: single(0.9), db: single(-6.0) };
    let levels = vec![SourceLevel {
        source_id: "loopback:b".into(),
        kind: SourceKind::Loopback,
        energy: loud,
    }];
    let r = levels_in_order(&sources, &levels);
    assert_eq!(r.len(), 2);
    assert_eq!(r[0].0, "mic:a");
    assert_eq!(float(r[0].2.rms), 0.0);
    assert_eq!(float(r[0].2.db), -120.0);
    assert_eq!(r[1].2, loud);
}

#[test]
fn levels_are_reported_ten_times_a_second_and_the_session_once() {
    let mut pace = Pace::new();
    let mut levels = 0;
    let mut updates = 0;
    for i in 1..=100 {
        let (l, u) = pace.step(i * 50);
        levels += l as i32;
        updates += u as i32;
    }
    assert_eq!(levels, 50);
    assert_eq!(updates, 5);
}

#[test]
fn the_only_source_is_known() {
    let mic = ("mic:a".to_string(), SourceKind::Microphone);
    let lb = ("loopback:b".to_string(), SourceKind::Loopback);
    assert_eq!(single_source(&vec![lb.clone()], None), Some(SourceKind::Loopback));
    assert_eq!(
        single_source(&vec![lb.clone()], Some(SourceKind::Microphone)),
        Some(SourceKind::Microphone)
    );
    assert_eq!(single_source(&vec![mic, lb], Some(SourceKind::Loopback)), None);
    assert_eq!(single_source(&vec![], None), None);
}

#[test]
fn a_file_is_fed_in_pieces() {
    assert_eq!(cut_pieces(3_700, 1_600), vec![(0, 1_600), (1_600, 3_200), (3_200, 3_700)]);
    assert_eq!(cut_pieces(1_600, 1_600), vec![(0, 1_600)]);
    assert_eq!(cut_pieces(0, 1_600), vec![]);
}

#[test]
fn progress_is_written_down() {
    let cfg = test_vad();
    let mut seg = Segmenter::new(&cfg, false);
    let (frames, _, _) = speech_clip(30);
    drive(&mut seg, &frames);
    seg.flush(&floats());
    let mut s = Session::new("会议".into(), SessionConfig::default());
    note_progress(&mut s, &seg);
    assert_eq!(s.stats.audio_ms, 5_500);
    assert_eq!(s.stats.speech_ms, seg.total_speech_ms());
    assert!(s.stats.speech_ms > 2_500);
}

#[test]
fn without_previews_no_partial_jobs_come() {
    let cfg = test_vad();
    let mut seg = Segmenter::new(&cfg, false);
    let (frames, _, _) = speech_clip(30);
    let mut actions = drive(&mut seg, &frames);
    actions.extend(seg.flush(&floats()));
    assert!(!actions
        .iter()
        .any(|a| matches!(a, SegmenterAction::Job(AsrJob::Partial { .. }))));
    assert!(actions.iter().any(|a| matches!(a, SegmenterAction::SpeechStarted { .. })));
    assert!(actions.iter().any(|a| matches!(a, SegmenterAction::SpeechEnded { .. })));
}

#[test]
fn a_final_calls_off_its_preview() {
    let cfg = test_vad();
    let mut seg = Segmenter::new(&cfg, true);
    let (frames, _, _) = speech_clip(30);
    let mut actions = drive(&mut seg, &frames);
    actions.extend(seg.flush(&floats()));
    let last_preview = actions
        .iter()
        .filter_map(|a| match a {
            SegmenterAction::Job(AsrJob::Partial { preview, .. }) => Some(*preview),
            _ => None,
        })
        .last()
        .unwrap();
    assert!(actions
        .iter()
        .any(|a| matches!(a, SegmenterAction::PreviewAborted { preview } if *preview == last_preview)));
}

#[test]
fn an_empty_frame_changes_nothing() {
    let mut seg = Segmenter::new(&test_vad(), true);
    let (frames, _, _) = speech_clip(10);
    drive(&mut seg, &frames);
    let before = seg.audio_ms();
    assert!(seg.push_frame(&[], &levels_for(&[]), &floats()).is_empty());
    assert_eq!(seg.audio_ms(), before);
}

#[test]
fn jobs_wait_in_the_order_in_which_they_came() {
    let mut q = JobQueue::new();
    q.push(dummy_partial(1, 100));
    q.push(dummy_partial(2, 200));
    q.push(dummy_partial(1, 300));
    q.push(dummy_final(3));
    q.push(dummy_partial(3, 400));
    assert_eq!(q.len(), 3);
    assert!(matches!(q.pop(), Some(AsrJob::Partial { utt_id: 2, .. })));
    match q.pop() {
        Some(AsrJob::Partial { utt_id: 1, samples, .. }) => assert_eq!(samples.len(), 300),
        other => panic!("{other:?}"),
    }
    assert!(matches!(q.pop(), Some(AsrJob::Final { utt_id: 3, .. })));
}

#[test]
fn utterances_fit_in_one_upload() {
    let asr = AsrSettings { max_chunk_secs: 10, ..Default::default() };
    assert_eq!(settings_for_cutting(&test_vad(), &asr).max_utterance_ms, 10_000);
    let asr = AsrSettings { max_chunk_secs: 120, ..Default::default() };
    assert_eq!(settings_for_cutting(&test_vad(), &asr).max_utterance_ms, 25_000);
}
