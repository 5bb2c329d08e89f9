//! Sources, mixing, files.

use meeting_hear::audio::capture::{
    capture_failure, default_source_id, is_pseudo_device, list_microphones, list_sources, make_id,
    missing_input, parse_id, plan_capture, sample_format_label, wants_default_device,
    AudioSourceInfo, CaptureConfig, InputDevice, InputFormat, SampleFormat, SourceKind,
};
use meeting_hear::audio::decode::{
    choose_decoder, ffmpeg_not_run, is_supported, missing_file, read_ffmpeg, Decoder,
};
use meeting_hear::audio::loopback::{
    is_virtual_device, list_monitors, list_outputs, list_unsupported, list_virtual,
    monitor_device, read_samples, recorder_ended, wants_default_output, MonitorListing,
    RenderDevice,
};
use meeting_hear::audio::mixer::{Mixer, HOP_SAMPLES, MAX_PENDING};
use meeting_hear::audio::wav::{encode_wav_16k_mono, recorded_ms};
use meeting_hear::num::Single;

fn single(x: f32) -> Single {
    Single { bits: x.to_bits() }
}

fn float(x: Single) -> f32 {
    f32::from_bits(x.bits)
}

fn device(name: Option<&str>, raw_id: &str, is_default: bool) -> InputDevice {
    InputDevice {
        id: format!("alsa:{raw_id}"),
        raw_id: raw_id.into(),
        name: name.map(|n| n.to_string()),
        input: Ok(InputFormat { rate: 48_000, channels: 2, format: SampleFormat::I16 }),
        is_default,
    }
}

fn devices() -> Vec<InputDevice> {
    let mut broken = device(None, "hw:2,0", false);
    broken.input = Err("被占用".into());
    vec![
        device(Some("Discard all samples (playback) or generate zero samples (capture)"), "null", true),
        broken,
        device(Some("USB 会议全向麦"), "hw:1,0", false),
        device(Some("内置麦克风"), "hw:0,0", true),
    ]
}

#[test]
fn id_roundtrip() {
    let id = make_id(SourceKind::Loopback, "扬声器 (Realtek)");
    assert_eq!(id, "loopback:扬声器 (Realtek)");
    let (kind, name) = parse_id(&id);
    assert_eq!(kind, SourceKind::Loopback);
    assert_eq!(name, "扬声器 (Realtek)");

    let (kind, name) = parse_id("mic:MacBook 麦克风");
    assert_eq!(kind, SourceKind::Microphone);
    assert_eq!(name, "MacBook 麦克风");

    let (kind, name) = parse_id("裸设备名");
    assert_eq!(kind, SourceKind::Microphone);
    assert_eq!(name, "裸设备名");
}

#[test]
fn id_prefix_roundtrips_with_parse_id() {
    for kind in [SourceKind::Microphone, SourceKind::Loopback] {
        let id = make_id(kind, "设备:名字");
        let (parsed_kind, payload) = parse_id(&id);
        assert_eq!(parsed_kind, kind, "前缀与解析不一致：{id}");
        assert_eq!(payload, "设备:名字", "类型前缀被误当成设备名：{id}");
    }
    assert_eq!(SourceKind::Microphone.as_str(), "microphone");
    assert_eq!(SourceKind::Loopback.as_str(), "loopback");
}

#[test]
fn listing_sources_never_panics() {
    let loopback = list_monitors(&MonitorListing::Missing, "");
    let list = list_sources(&devices(), loopback);
    assert_eq!(list.len(), 4);
    for s in &list {
        assert!(!s.id.is_empty());
        assert!(!s.label.is_empty());
        assert!(!s.detail.is_empty());
    }
    assert!(list_sources(&vec![], vec![]).is_empty());
}

#[test]
fn pseudo_devices_are_filtered_out() {
    assert!(is_pseudo_device(
        "Discard all samples (playback) or generate zero samples (capture)",
        "alsa:null"
    ));
    assert!(is_pseudo_device("Null Output", "alsa:null"));
    assert!(is_pseudo_device("dmix", "alsa:dmix"));
    assert!(is_pseudo_device("HDA Intel HDMI", "alsa:hdmi:0"));
    assert!(!is_pseudo_device("MacBook Pro 麦克风", "coreaudio:1"));
    assert!(!is_pseudo_device(
        "Playback/recording through the PulseAudio sound server",
        "alsa:pulse"
    ));
    assert!(!is_pseudo_device("USB 会议全向麦", "alsa:hw:1,0"));
}

#[test]
fn list_sources_excludes_pseudo_devices() {
    let list = list_microphones(&devices());
    assert_eq!(list.len(), 3);
    for item in &list {
        assert!(
            !item.label.to_lowercase().contains("discard all samples"),
            "伪设备不应出现在列表里：{}",
            item.label
        );
    }
    assert_eq!(list[0].label, "hw:2,0");
    assert_eq!(list[0].detail, "不可用：被占用");
    assert!(!list[0].available);
    assert_eq!(list[1].id, "mic:alsa:hw:1,0");
    assert_eq!(list[1].detail, "48000 Hz · 2 声道 · 整型");
}

#[test]
fn sample_formats_have_labels() {
    assert_eq!(sample_format_label(SampleFormat::I32), "整型");
    assert_eq!(sample_format_label(SampleFormat::F32), "浮点");
    assert_eq!(sample_format_label(SampleFormat::Other), "未知");
}

#[test]
fn the_default_source_is_preferred() {
    let list = list_sources(&devices(), list_monitors(&MonitorListing::Failed, ""));
    assert_eq!(
        default_source_id(&list, SourceKind::Microphone).as_deref(),
        Some("mic:alsa:hw:0,0")
    );
    assert_eq!(default_source_id(&list, SourceKind::Loopback), None);
    let without_default: Vec<AudioSourceInfo> =
        list.into_iter().filter(|s| !s.is_default).collect();
    assert_eq!(
        default_source_id(&without_default, SourceKind::Microphone).as_deref(),
        Some("mic:alsa:hw:1,0")
    );
}

fn config(mic: Option<&str>, loopback: Option<&str>) -> CaptureConfig {
    CaptureConfig {
        mic_device_id: mic.map(|s| s.to_string()),
        loopback_device_id: loopback.map(|s| s.to_string()),
        mic_gain: single(9.0),
        loopback_gain: single(0.5),
    }
}

#[test]
fn start_without_sources_is_an_error() {
    let result = plan_capture(&config(None, None));
    assert!(result.is_err());
    assert!(result.unwrap_err().message().contains("没有选择任何音频来源"));
}

#[test]
fn sources_are_opened_in_order() {
    let plan = plan_capture(&config(Some("mic:alsa:hw:0,0"), Some("loopback:扬声器"))).unwrap();
    assert_eq!(plan.len(), 2);
    assert_eq!(plan[0].device, "alsa:hw:0,0");
    assert_eq!(plan[0].source.label, "麦克风（alsa:hw:0,0）");
    assert_eq!(float(plan[0].gain), 4.0);
    assert_eq!(plan[1].source.kind, SourceKind::Loopback);
    assert_eq!(plan[1].source.label, "系统声音（扬声器）");
    assert_eq!(float(plan[1].gain), 0.5);
    let plan = plan_capture(&config(None, Some("loopback:扬声器"))).unwrap();
    assert_eq!(plan.len(), 1);
    assert_eq!(plan[0].source.id, "loopback:扬声器");
}

#[test]
fn devices_that_are_missing_are_named() {
    assert!(wants_default_device("  "));
    assert!(wants_default_device("DEFAULT"));
    assert!(!wants_default_device("hw:0"));
    assert_eq!(
        missing_input("hw:9").message(),
        "音频设备错误：找不到输入设备「hw:9」，可能已被拔出"
    );
    assert_eq!(missing_input("default").message(), "音频设备错误：系统没有可用的默认输入设备");
    assert_eq!(capture_failure(SourceKind::Microphone, "x"), "麦克风采集失败：x");
    assert_eq!(capture_failure(SourceKind::Loopback, "x"), "系统内录失败：x");
}

fn mixer() -> Mixer {
    Mixer::new(&plan_capture(&config(Some("mic:m"), Some("loopback:l"))).unwrap())
}

#[test]
fn samples_go_to_the_source_they_come_from() {
    let mut m = mixer();
    assert_eq!(m.len(), 2);
    assert_eq!(m.accept(0, &vec![single(0.25); 1_600]), Some(0));
    assert_eq!(m.accept(7, &[single(1.0)]), None);
    assert!(m.ready());
    let hops = m.take_hops();
    assert_eq!(hops.len(), 2);
    assert_eq!((hops[0].heard, hops[1].heard), (1_600, 0));
    assert!(hops[0].samples.iter().all(|s| float(*s) == 0.25));
    assert!(hops[1].samples.iter().all(|s| float(*s) == 0.0));
    assert_eq!(hops[1].samples.len(), HOP_SAMPLES);
    assert!(!m.has_rest());
}

#[test]
fn a_silent_source_neither_stops_nor_drives_the_mix() {
    let mut m = mixer();
    assert!(!m.ready());
    m.accept(0, &vec![single(0.1); 4_000]);
    m.accept(1, &vec![single(0.2); 100]);
    let mut frames = 0;
    while m.ready() {
        m.take_hops();
        frames += 1;
    }
    assert_eq!(frames, 2);
    assert_eq!(m.source(0).pending.len(), 800);
    assert!(m.has_rest());
    let last = m.take_hops();
    assert_eq!((last[0].heard, last[1].heard), (800, 0));
    assert!(!m.has_rest());
}

#[test]
fn a_source_never_has_more_than_two_seconds_waiting() {
    let mut m = mixer();
    m.accept(0, &vec![single(0.1); 30_000]);
    assert_eq!(m.accept(0, &vec![single(0.9); 5_000]), Some(3_000));
    assert_eq!(m.source(0).pending.len(), MAX_PENDING);
    assert_eq!(float(m.source(0).pending[26_999]), 0.1);
    assert_eq!(float(m.source(0).pending[27_000]), 0.9);
}

#[test]
fn a_rate_changes_only_while_nothing_waits() {
    let mut m = mixer();
    assert!(m.set_rate(0, 48_000));
    assert!(!m.set_rate(0, 48_000));
    m.accept(0, &[single(0.1)]);
    assert!(!m.set_rate(0, 44_100));
    assert_eq!(m.source(0).rate, 48_000);
    assert!(!m.set_rate(5, 44_100));
}

#[test]
fn list_never_panics_on_this_platform() {
    let table = "0\talsa_output.pci.analog-stereo.monitor\tmodule\ts16le 2ch 48000Hz\tRUNNING\nnonsense\n";
    let lists = vec![
        list_monitors(&MonitorListing::Missing, ""),
        list_monitors(&MonitorListing::Failed, ""),
        list_monitors(&MonitorListing::Table(table.into()), "x"),
        list_outputs(&vec![], ""),
        list_virtual(&vec![]),
        list_unsupported(),
    ];
    for list in &lists {
        assert!(!list.is_empty());
        for item in list {
            assert_eq!(item.kind, SourceKind::Loopback);
            assert!(item.id.starts_with("loopback:"));
            assert!(!item.label.is_empty());
        }
    }
}

#[test]
fn linux_unavailable_entry_explains_how_to_fix() {
    for listing in [
        MonitorListing::Missing,
        MonitorListing::Failed,
        MonitorListing::Table(String::new()),
    ] {
        let list = list_monitors(&listing, "");
        let note = list
            .iter()
            .find(|i| !i.available)
            .and_then(|i| i.note.clone())
            .unwrap_or_default();
        assert!(
            note.contains("pactl") || note.contains("PulseAudio") || note.contains("PipeWire"),
            "不可用提示应说明原因与解决办法，实际：{note}"
        );
    }
}

#[test]
fn monitors_are_read_from_the_table() {
    let table = "0\talsa_input.usb\tm\ts16le\tIDLE\n\
                 1\t alsa_output.pci-0000.analog-stereo.monitor \tm\t s16le 2ch 48000Hz \tIDLE\n\
                 2\tshort.monitor\n";
    let list = list_monitors(
        &MonitorListing::Table(table.into()),
        "alsa_output.pci-0000.analog-stereo",
    );
    assert_eq!(list.len(), 1);
    assert_eq!(list[0].id, "loopback:alsa_output.pci-0000.analog-stereo.monitor");
    assert_eq!(list[0].label, "系统声音（analog-stereo）");
    assert_eq!(list[0].detail, "s16le 2ch 48000Hz · PulseAudio monitor");
    assert!(list[0].is_default && list[0].available);
    assert_eq!(monitor_device(" "), "@DEFAULT_MONITOR@");
    assert_eq!(monitor_device("a.monitor"), "a.monitor");
    assert_eq!(
        recorder_ended(" \n").message(),
        "音频设备错误：parec 已退出（声源可能被关闭）"
    );
    assert_eq!(recorder_ended(" no such device\n").message(), "音频设备错误：parec 退出：no such device");
}

#[test]
fn outputs_and_virtual_devices_are_listed() {
    let list = list_outputs(
        &vec![
            RenderDevice { index: 0, name: Some("扬声器".into()), format: Some((48_000, 2)) },
            RenderDevice { index: 3, name: None, format: None },
        ],
        "扬声器",
    );
    assert_eq!(list[0].detail, "48000 Hz · 2 声道 · WASAPI loopback");
    assert!(list[0].is_default && !list[1].is_default);
    assert_eq!(list[1].label, "输出设备 3");
    assert!(wants_default_output("") && wants_default_output("默认输出设备（x）"));
    assert!(!wants_default_output("扬声器"));

    assert!(is_virtual_device("BlackHole 2ch"));
    assert!(!is_virtual_device("内置麦克风"));
    let list = list_virtual(&vec![
        device(Some("内置麦克风"), "1", true),
        device(Some("BlackHole 2ch"), "2", false),
    ]);
    assert_eq!(list.len(), 1);
    assert!(list[0].is_default);
    assert_eq!(list[0].detail, "48000 Hz · 2 声道 · 虚拟声卡");
}

#[test]
fn bytes_become_samples() {
    let mut bytes = Vec::new();
    for x in [0.5f32, -1.0, 1e-9] {
        bytes.extend_from_slice(&x.to_le_bytes());
    }
    bytes.push(7);
    let (samples, rest) = read_samples(&bytes);
    let floats: Vec<f32> = samples.into_iter().map(float).collect();
    assert_eq!(floats, vec![0.5, -1.0, 1e-9]);
    assert_eq!(rest, vec![7]);
}

#[test]
fn extension_support_check() {
    assert!(is_supported("a/b.wav"));
    assert!(is_supported("a/b.MP3"));
    assert!(is_supported("meeting.m4a"));
    assert!(!is_supported("notes.txt"));
    assert!(!is_supported("noext"));
    assert!(!is_supported("dir.mp3/noext"));
    assert!(!is_supported(".wav"));
    assert!(is_supported("会议.2024.opus"));
}

#[test]
fn missing_file_is_rejected() {
    let e = choose_decoder("/no/such/file.wav", false).unwrap_err();
    assert_eq!(e.message(), "音频设备错误：文件不存在：/no/such/file.wav");
    assert_eq!(missing_file("x").message(), "音频设备错误：文件不存在：x");
    assert_eq!(choose_decoder("/a/b.WAV", true).unwrap(), Decoder::Wav);
    assert_eq!(choose_decoder("/a/b.mp3", true).unwrap(), Decoder::Ffmpeg);
}

#[test]
fn what_ffmpeg_gives_is_read_or_explained() {
    let e = ffmpeg_not_run("a.mp3", true, "x").message();
    assert!(e.contains("需要 ffmpeg") && e.contains("a.mp3"));
    assert_eq!(
        ffmpeg_not_run("a.mp3", false, "x").message(),
        "音频设备错误：调用 ffmpeg 失败：x"
    );
    assert_eq!(
        read_ffmpeg("a.mp3", false, &vec![], " bad \n").unwrap_err().message(),
        "音频设备错误：ffmpeg 解码失败（a.mp3）：bad"
    );
    assert!(read_ffmpeg("a.mp3", true, &vec![0, 0], "").unwrap_err().message().contains("解码结果为空"));
    let v = read_ffmpeg("a.mp3", true, &0.25f32.to_le_bytes().to_vec(), "").unwrap();
    assert_eq!(float(v[0]), 0.25);
}

#[test]
fn a_recording_is_encoded_as_wav() {
    let samples: Vec<i16> = vec![0, 1, -1, 32_767, -32_768];
    let bytes = encode_wav_16k_mono(&samples).unwrap();
    assert_eq!(&bytes[0..4], b"RIFF");
    assert_eq!(bytes[4..8], 46u32.to_le_bytes());
    assert_eq!(&bytes[8..16], b"WAVEfmt ");
    assert_eq!(bytes[16..20], 16u32.to_le_bytes());
    assert_eq!(bytes[20..24], [1, 0, 1, 0]);
    assert_eq!(bytes[24..28], 16_000u32.to_le_bytes());
    assert_eq!(bytes[28..32], 32_000u32.to_le_bytes());
    assert_eq!(bytes[32..36], [2, 0, 16, 0]);
    assert_eq!(&bytes[36..40], b"data");
    assert_eq!(bytes[40..44], 10u32.to_le_bytes());
    assert_eq!(bytes[44..], [0, 0, 1, 0, 255, 255, 255, 127, 0, 128]);
    assert_eq!(recorded_ms(24_000), 1_500);
}

#[test]
fn encoded_wav_roundtrips() {
    let samples: Vec<i16> = (0..8_000i32).map(|i| ((i * 37) % 20_000 - 10_000) as i16).collect();
    let bytes = encode_wav_16k_mono(&samples).unwrap();
    let mut reader = hound::WavReader::new(std::io::Cursor::new(bytes)).unwrap();
    assert_eq!(reader.spec().sample_rate, 16_000);
    assert_eq!(reader.spec().channels, 1);
    let back: Vec<i16> = reader.samples::<i16>().map(|s| s.unwrap()).collect();
    assert_eq!(back, samples);
}

#[test]
fn extensions_of_paths_with_drives() {
    assert!(is_supported("C:\\会议\\a.WAV"));
    assert!(is_supported("C:a.mp3"));
    assert!(is_supported("D:/录音/b.m4a"));
    assert!(!is_supported("C:\\dir\\noext"));
    assert!(!is_supported("C:\\x/.wav"));
    assert!(!is_supported("a.wav/.."));
    assert_eq!(choose_decoder("C:\\会议\\a.WAV", true).unwrap(), Decoder::Wav);
    assert_eq!(choose_decoder("C:\\会议\\a.mp3", true).unwrap(), Decoder::Ffmpeg);
}
