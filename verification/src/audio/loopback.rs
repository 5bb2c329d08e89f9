//! Recording what the system plays. Each operating system has its own way to it;
//! what a system reports is turned into sources here.

use vstd::prelude::*;
use vstd::string::*;
use crate::audio::capture::AudioSourceInfo;
use crate::audio::capture::InputDevice;
use crate::audio::capture::SourceInfoView;
use crate::audio::capture::SourceKind;
use crate::audio::capture::describe_rate;
use crate::audio::capture::law_ids_are_read_back;
use crate::audio::capture::make_id;
use crate::audio::capture::parsed_id;
use crate::audio::capture::rate_text;
use crate::audio::capture::source_id;
use crate::audio::capture::source_views;
use crate::error::AppError;
use crate::error::ErrorView;
use crate::num::Single;
use crate::text::blank;
use crate::text::contains;
use crate::text::decimal;
use crate::text::decimal_of;
use crate::text::ends_with;
use crate::text::has_text;
use crate::text::is_blank;
use crate::text::lines;
use crate::text::lines_of;
use crate::text::pieces;
use crate::text::same;
use crate::text::split_by;
use crate::text::starts_with;
use crate::text::strip_suffixes;
use crate::text::trim;
use crate::text::trim_end_text;
use crate::text::trimmed;
use crate::text::views;

verus! {

// ---------------------------------------------------------------------------
// PulseAudio and PipeWire: monitor sources
// ---------------------------------------------------------------------------

/// What listing the sources brought.
#[derive(Debug)]
pub enum MonitorListing {
    /// The table of sources, a line each.
    Table(String),
    /// The command failed.
    Failed,
    /// There is no such command.
    Missing,
}

pub open spec fn tab(c: char) -> bool {
    c == '\t'
}

fn is_tab(c: char) -> (r: bool)
    ensures
        r == tab(c),
{
    c == '\t'
}

pub open spec fn dot(c: char) -> bool {
    c == '.'
}

fn is_dot(c: char) -> (r: bool)
    ensures
        r == dot(c),
{
    c == '.'
}

/// The columns of a line.
pub open spec fn columns(line: Seq<char>) -> Seq<Seq<char>> {
    pieces(line, |c: char| tab(c))
}

/// A line that names the monitor of an output.
pub open spec fn names_monitor(line: Seq<char>) -> bool {
    let cols = columns(line);
    cols.len() >= 4 && ".monitor"@.is_suffix_of(trimmed(cols[1]))
}

/// The last part of a monitor's name.
pub open spec fn monitor_label(name: Seq<char>) -> Seq<char> {
    pieces(strip_suffixes(name, ".monitor"@), |c: char| dot(c)).last()
}

pub open spec fn monitor(line: Seq<char>, default_sink: Seq<char>) -> SourceInfoView {
    let cols = columns(line);
    let name = trimmed(cols[1]);
    SourceInfoView {
        id: source_id(SourceKind::Loopback, name),
        kind: SourceKind::Loopback,
        label: "系统声音（"@ + monitor_label(name) + "）"@,
        detail: trimmed(cols[3]) + " · PulseAudio monitor"@,
        is_default: default_sink.len() > 0 && name == default_sink + ".monitor"@,
        available: true,
        note: None,
    }
}

pub open spec fn monitors(lines: Seq<Seq<char>>, default_sink: Seq<char>) -> Seq<SourceInfoView>
    decreases lines.len(),
{
    if lines.len() == 0 {
        Seq::empty()
    } else {
        let before = monitors(lines.drop_last(), default_sink);
        if names_monitor(lines.last()) {
            before.push(monitor(lines.last(), default_sink))
        } else {
            before
        }
    }
}

pub const MONITOR_NOTE: &'static str =
    "系统内录需要 PulseAudio 或 PipeWire 的 monitor 声源。请确认已安装 pulseaudio-utils（提供 pactl/parec），或改用麦克风采集。";

/// The entry where there is no monitor: it says why and what helps.
pub open spec fn no_monitor(reason: Seq<char>) -> SourceInfoView {
    SourceInfoView {
        id: source_id(SourceKind::Loopback, "系统声音"@),
        kind: SourceKind::Loopback,
        label: "系统声音（不可用）"@,
        detail: reason,
        is_default: false,
        available: false,
        note: Some(MONITOR_NOTE@),
    }
}

pub fn unavailable(reason: &str) -> (r: AudioSourceInfo)
    ensures
        r@ == no_monitor(reason@),
{
    AudioSourceInfo {
        id: make_id(SourceKind::Loopback, "系统声音"),
        kind: SourceKind::Loopback,
        label: "系统声音（不可用）".to_owned(),
        detail: reason.to_owned(),
        is_default: false,
        available: false,
        note: Some(MONITOR_NOTE.to_owned()),
    }
}

fn read_monitor(line: &str, default_sink: &str) -> (r: Option<AudioSourceInfo>)
    ensures
        match r {
            Some(s) => names_monitor(line@) && s@ == monitor(line@, default_sink@),
            None => !names_monitor(line@),
        },
{
    let cols = split_by(line, is_tab, Ghost(|c: char| tab(c)));
    proof {
        assert(views(cols@).len() == cols@.len());
    }
    if cols.len() < 4 {
        return None;
    }
    proof {
        assert(columns(line@)[1] == cols@[1]@);
        assert(columns(line@)[3] == cols@[3]@);
    }
    let name = trim(cols[1].as_str());
    if !ends_with(name, ".monitor") {
        return None;
    }
    proof {
        reveal_strlit(".monitor");
    }
    let parts = split_by(trim_end_text(name, ".monitor"), is_dot, Ghost(|c: char| dot(c)));
    proof {
        crate::text::lemma_pieces_nonempty(
            strip_suffixes(name@, ".monitor"@),
            |c: char| dot(c),
        );
        assert(views(parts@).len() == parts@.len());
        assert(views(parts@).last() == parts@.last()@);
    }
    let mut label = "系统声音（".to_owned();
    label.append(parts[parts.len() - 1].as_str());
    label.append("）");
    let mut detail = trim(cols[3].as_str()).to_owned();
    detail.append(" · PulseAudio monitor");
    let mut of_default = default_sink.to_owned();
    of_default.append(".monitor");
    Some(
        AudioSourceInfo {
            id: make_id(SourceKind::Loopback, name),
            kind: SourceKind::Loopback,
            label,
            detail,
            is_default: default_sink.unicode_len() > 0 && same(name, of_default.as_str()),
            available: true,
            note: None,
        },
    )
}

/// The sources in a listing.
pub open spec fn monitor_list(listing: MonitorListing, default_sink: Seq<char>) -> Seq<
    SourceInfoView,
> {
    match listing {
        MonitorListing::Missing => seq![no_monitor("未找到 pactl 命令"@)],
        MonitorListing::Failed => seq![no_monitor("pactl 执行失败"@)],
        MonitorListing::Table(text) => {
            let found = monitors(lines_of(text@), default_sink);
            if found.len() == 0 {
                seq![no_monitor("没有找到 monitor 声源"@)]
            } else {
                found
            }
        },
    }
}

/// Lists the monitors of the system's outputs. `default_sink` is the name of the
/// output in use, empty if unknown.
pub fn list_monitors(listing: &MonitorListing, default_sink: &str) -> (r: Vec<AudioSourceInfo>)
    ensures
        source_views(r@) == monitor_list(*listing, default_sink@),
{
    let mut out: Vec<AudioSourceInfo> = Vec::new();
    match listing {
        MonitorListing::Missing => {
            out.push(unavailable("未找到 pactl 命令"));
        },
        MonitorListing::Failed => {
            out.push(unavailable("pactl 执行失败"));
        },
        MonitorListing::Table(text) => {
            let all_lines = lines(text.as_str());
            let ghost all = lines_of(text@);
            let n: usize = all_lines.len();
            let mut i: usize = 0;
            proof {
                assert(views(all_lines@).len() == n);
                assert(source_views(out@) =~= monitors(all.take(0), default_sink@));
            }
            while i < n
                invariant
                    i <= n == all_lines@.len(),
                    all == views(all_lines@),
                    all.len() == n,
                    source_views(out@) == monitors(all.take(i as int), default_sink@),
                decreases n - i,
            {
                let ghost before = out@;
                proof {
                    assert(all.take(i + 1).drop_last() =~= all.take(i as int));
                    assert(all[i as int] == all_lines@[i as int]@);
                }
                if let Some(s) = read_monitor(all_lines[i].as_str(), default_sink) {
                    out.push(s);
                    proof {
                        assert(source_views(out@) =~= source_views(before).push(out@.last()@));
                    }
                }
                i += 1;
            }
            proof {
                assert(all.take(n as int) =~= all);
                assert(source_views(out@).len() == out@.len());
            }
            if out.len() == 0 {
                out.push(unavailable("没有找到 monitor 声源"));
            }
        },
    }
    proof {
        if out@.len() == 1 {
            assert(source_views(out@) =~= seq![out@[0]@]);
        }
    }
    out
}

/// The device that a name stands for.
pub fn monitor_device(name: &str) -> (r: String)
    ensures
        r@ == if blank(name@) {
            "@DEFAULT_MONITOR@"@
        } else {
            name@
        },
{
    if is_blank(name) {
        "@DEFAULT_MONITOR@".to_owned()
    } else {
        name.to_owned()
    }
}

/// The error when the recording process has ended; `stderr` is what it said.
pub fn recorder_ended(stderr: &str) -> (r: AppError)
    ensures
        r@ == ErrorView::Audio(
            if blank(stderr@) {
                "parec 已退出（声源可能被关闭）"@
            } else {
                "parec 退出："@ + trimmed(stderr@)
            },
        ),
{
    if is_blank(stderr) {
        AppError::audio("parec 已退出（声源可能被关闭）")
    } else {
        let mut m = "parec 退出：".to_owned();
        m.append(trim(stderr));
        AppError::Audio(m)
    }
}

// ---------------------------------------------------------------------------
// WASAPI: outputs opened for recording
// ---------------------------------------------------------------------------

/// What the system says of an output.
#[derive(Debug)]
pub struct RenderDevice {
    pub index: u32,
    pub name: Option<String>,
    /// Rate and channels.
    pub format: Option<(u32, u16)>,
}

impl RenderDevice {
    pub open spec fn shown_name(self) -> Seq<char> {
        match self.name {
            Some(n) => n@,
            None => "输出设备 "@ + decimal(self.index as nat),
        }
    }
}

pub open spec fn render_source(d: RenderDevice, default_name: Seq<char>) -> SourceInfoView {
    SourceInfoView {
        id: source_id(SourceKind::Loopback, d.shown_name()),
        kind: SourceKind::Loopback,
        label: d.shown_name(),
        detail: match d.format {
            Some(f) => rate_text(f.0, f.1, "WASAPI loopback"@),
            None => "WASAPI loopback"@,
        },
        is_default: d.shown_name() == default_name,
        available: true,
        note: None,
    }
}

/// The entry where no output could be listed.
pub open spec fn default_output() -> SourceInfoView {
    SourceInfoView {
        id: source_id(SourceKind::Loopback, "默认输出设备"@),
        kind: SourceKind::Loopback,
        label: "系统声音（默认输出设备）"@,
        detail: "WASAPI loopback"@,
        is_default: true,
        available: true,
        note: Some("未能枚举具体设备，将使用系统默认输出"@),
    }
}

pub open spec fn render_list(devices: Seq<RenderDevice>, default_name: Seq<char>) -> Seq<
    SourceInfoView,
> {
    if devices.len() == 0 {
        seq![default_output()]
    } else {
        devices.map_values(|d: RenderDevice| render_source(d, default_name))
    }
}

/// Lists the outputs that can be recorded.
pub fn list_outputs(devices: &Vec<RenderDevice>, default_name: &str) -> (r: Vec<AudioSourceInfo>)
    ensures
        source_views(r@) == render_list(devices@, default_name@),
{
    let n: usize = devices.len();
    let mut out: Vec<AudioSourceInfo> = Vec::new();
    if n == 0 {
        out.push(
            AudioSourceInfo {
                id: make_id(SourceKind::Loopback, "默认输出设备"),
                kind: SourceKind::Loopback,
                label: "系统声音（默认输出设备）".to_owned(),
                detail: "WASAPI loopback".to_owned(),
                is_default: true,
                available: true,
                note: Some("未能枚举具体设备，将使用系统默认输出".to_owned()),
            },
        );
        proof {
            assert(source_views(out@) =~= seq![out@[0]@]);
        }
        return out;
    }
    let mut i: usize = 0;
    while i < n
        invariant
            i <= n == devices@.len(),
            out@.len() == i,
            forall|j: int|
                0 <= j < i ==> (#[trigger] out@[j])@ == render_source(devices@[j], default_name@),
        decreases n - i,
    {
        let d = &devices[i];
        let name = match &d.name {
            Some(s) => s.clone(),
            None => {
                let mut s = "输出设备 ".to_owned();
                s.append(decimal_of(d.index as u128).as_str());
                s
            },
        };
        let detail = match &d.format {
            Some(f) => describe_rate(f.0, f.1, "WASAPI loopback"),
            None => "WASAPI loopback".to_owned(),
        };
        let is_default: bool = same(name.as_str(), default_name);
        out.push(
            AudioSourceInfo {
                id: make_id(SourceKind::Loopback, name.as_str()),
                kind: SourceKind::Loopback,
                label: name,
                detail,
                is_default,
                available: true,
                note: None,
            },
        );
        i += 1;
    }
    proof {
        assert(source_views(out@) =~= render_list(devices@, default_name@));
    }
    out
}

/// Whether a name stands for the output in use.
pub fn wants_default_output(name: &str) -> (r: bool)
    ensures
        r == (name@.len() == 0 || "默认输出设备"@.is_prefix_of(name@)),
{
    name.unicode_len() == 0 || starts_with(name, "默认输出设备")
}

// ---------------------------------------------------------------------------
// macOS: virtual devices
// ---------------------------------------------------------------------------

/// Parts of the names of virtual sound devices.
pub const VIRTUAL_DEVICE_HINTS: [&'static str; 8] = [
    "BlackHole",
    "Soundflower",
    "Loopback",
    "VB-Cable",
    "Virtual Audio",
    "虚拟",
    "Multi-Output",
    "Aggregate",
];

pub const VIRTUAL_NOTE: &'static str =
    "请把系统输出同时送到这个虚拟设备（用「多输出设备」或 BlackHole 的监听模式），否则录不到声音。";

pub const INSTALL_NOTE: &'static str =
    "macOS 不允许应用直接录制系统声音。解决方法：安装免费的 BlackHole（brew install blackhole-2ch），然后在「音频 MIDI 设置」里创建一个「多输出设备」，同时勾选你的扬声器和 BlackHole，把它设为系统输出。之后回到这里刷新设备列表即可。";

pub open spec fn virtual_name(name: Seq<char>) -> bool {
    exists|i: int| 0 <= i < 8 && has_text(name, #[trigger] VIRTUAL_DEVICE_HINTS[i]@)
}

pub fn is_virtual_device(name: &str) -> (r: bool)
    ensures
        r == virtual_name(name@),
{
    let mut i: usize = 0;
    while i < 8
        invariant
            i <= 8,
            forall|j: int| 0 <= j < i ==> !has_text(name@, #[trigger] VIRTUAL_DEVICE_HINTS[j]@),
        decreases 8 - i,
    {
        if contains(name, VIRTUAL_DEVICE_HINTS[i]) {
            proof {
                assert(has_text(name@, VIRTUAL_DEVICE_HINTS[i as int]@));
            }
            return true;
        }
        i += 1;
    }
    false
}

pub open spec fn virtual_source(d: InputDevice) -> SourceInfoView {
    SourceInfoView {
        id: source_id(SourceKind::Loopback, d.id@),
        kind: SourceKind::Loopback,
        label: "系统声音（"@ + d.shown_name() + "）"@,
        detail: match d.input {
            Ok(f) => rate_text(f.rate, f.channels, "虚拟声卡"@),
            Err(why) => "不可用："@ + why@,
        },
        is_default: has_text(d.shown_name(), "BlackHole"@),
        available: true,
        note: Some(VIRTUAL_NOTE@),
    }
}

pub open spec fn virtual_sources(devices: Seq<InputDevice>) -> Seq<SourceInfoView>
    decreases devices.len(),
{
    if devices.len() == 0 {
        Seq::empty()
    } else {
        let before = virtual_sources(devices.drop_last());
        if virtual_name(devices.last().shown_name()) {
            before.push(virtual_source(devices.last()))
        } else {
            before
        }
    }
}

/// The entry where no virtual device is installed.
pub open spec fn not_installed() -> SourceInfoView {
    SourceInfoView {
        id: source_id(SourceKind::Loopback, "BlackHole 2ch"@),
        kind: SourceKind::Loopback,
        label: "系统声音（需要先安装虚拟声卡）"@,
        detail: "未检测到 BlackHole / Soundflower 等虚拟音频设备"@,
        is_default: false,
        available: false,
        note: Some(INSTALL_NOTE@),
    }
}

pub open spec fn virtual_list(devices: Seq<InputDevice>) -> Seq<SourceInfoView> {
    let found = virtual_sources(devices);
    if found.len() == 0 {
        seq![not_installed()]
    } else {
        found
    }
}

/// Lists the virtual devices among the inputs.
pub fn list_virtual(devices: &Vec<InputDevice>) -> (r: Vec<AudioSourceInfo>)
    ensures
        source_views(r@) == virtual_list(devices@),
{
    let n: usize = devices.len();
    let mut out: Vec<AudioSourceInfo> = Vec::new();
    let mut i: usize = 0;
    proof {
        assert(source_views(out@) =~= virtual_sources(devices@.take(0)));
    }
    while i < n
        invariant
            i <= n == devices@.len(),
            source_views(out@) == virtual_sources(devices@.take(i as int)),
        decreases n - i,
    {
        let d = &devices[i];
        let ghost before = out@;
        proof {
            assert(devices@.take(i + 1).drop_last() =~= devices@.take(i as int));
        }
        let name = d.display_name();
        if is_virtual_device(name.as_str()) {
            let detail = match &d.input {
                Ok(f) => describe_rate(f.rate, f.channels, "虚拟声卡"),
                Err(why) => {
                    let mut s = "不可用：".to_owned();
                    s.append(why.as_str());
                    s
                },
            };
            let mut label = "系统声音（".to_owned();
            label.append(name.as_str());
            label.append("）");
            out.push(
                AudioSourceInfo {
                    id: make_id(SourceKind::Loopback, d.id.as_str()),
                    kind: SourceKind::Loopback,
                    label,
                    detail,
                    is_default: contains(name.as_str(), "BlackHole"),
                    available: true,
                    note: Some(VIRTUAL_NOTE.to_owned()),
                },
            );
            proof {
                assert(out@.last()@ == virtual_source(devices@[i as int]));
                assert(source_views(out@) =~= source_views(before).push(out@.last()@));
            }
        }
        i += 1;
    }
    proof {
        assert(devices@.take(n as int) =~= devices@);
        assert(source_views(out@).len() == out@.len());
    }
    if out.len() == 0 {
        out.push(
            AudioSourceInfo {
                id: make_id(SourceKind::Loopback, "BlackHole 2ch"),
                kind: SourceKind::Loopback,
                label: "系统声音（需要先安装虚拟声卡）".to_owned(),
                detail: "未检测到 BlackHole / Soundflower 等虚拟音频设备".to_owned(),
                is_default: false,
                available: false,
                note: Some(INSTALL_NOTE.to_owned()),
            },
        );
        proof {
            assert(source_views(out@) =~= seq![out@[0]@]);
        }
    }
    out
}

// ---------------------------------------------------------------------------
// Systems without a way to it
// ---------------------------------------------------------------------------

pub fn list_unsupported() -> (r: Vec<AudioSourceInfo>)
    ensures
        source_views(r@) == seq![
            SourceInfoView {
                id: source_id(SourceKind::Loopback, "系统声音"@),
                kind: SourceKind::Loopback,
                label: "系统声音（该平台不支持）"@,
                detail: "当前平台未实现系统内录"@,
                is_default: false,
                available: false,
                note: Some("请使用麦克风采集"@),
            },
        ],
{
    let mut out: Vec<AudioSourceInfo> = Vec::new();
    out.push(
        AudioSourceInfo {
            id: make_id(SourceKind::Loopback, "系统声音"),
            kind: SourceKind::Loopback,
            label: "系统声音（该平台不支持）".to_owned(),
            detail: "当前平台未实现系统内录".to_owned(),
            is_default: false,
            available: false,
            note: Some("请使用麦克风采集".to_owned()),
        },
    );
    proof {
        assert(source_views(out@) =~= seq![out@[0]@]);
    }
    out
}

// ---------------------------------------------------------------------------
// Bytes
// ---------------------------------------------------------------------------

/// The number whose bytes stand at `4 * i`, the lowest first.
pub open spec fn sample_at(bytes: Seq<u8>, i: int) -> Single {
    Single {
        bits: (bytes[4 * i] + bytes[4 * i + 1] * 0x100 + bytes[4 * i + 2] * 0x1_0000 + bytes[4 * i
            + 3] * 0x100_0000) as u32,
    }
}

/// Reads the samples that are whole; what follows the last of them is left for
/// the next call.
pub fn read_samples(bytes: &Vec<u8>) -> (r: (Vec<Single>, Vec<u8>))
    ensures
        r.0@ == Seq::new(bytes@.len() / 4, |i: int| sample_at(bytes@, i)),
        r.1@ == bytes@.skip(bytes@.len() as int / 4 * 4),
{
    let total: usize = bytes.len();
    let n: usize = total / 4;
    let mut out: Vec<Single> = Vec::new();
    let mut i: usize = 0;
    while i < n
        invariant
            i <= n == total / 4,
            total == bytes@.len(),
            out@.len() == i,
            forall|j: int| 0 <= j < i ==> #[trigger] out@[j] == sample_at(bytes@, j),
        decreases n - i,
    {
        let k: usize = 4 * i;
        let bits: u32 = bytes[k] as u32 + bytes[k + 1] as u32 * 0x100 + bytes[k + 2] as u32
            * 0x1_0000 + bytes[k + 3] as u32 * 0x100_0000;
        out.push(Single { bits });
        i += 1;
    }
    let mut rest: Vec<u8> = Vec::new();
    let mut k: usize = 4 * n;
    while k < total
        invariant
            4 * n <= k <= total == bytes@.len(),
            rest@ == bytes@.subrange(4 * n as int, k as int),
        decreases total - k,
    {
        rest.push(bytes[k]);
        k += 1;
        proof {
            assert(rest@ =~= bytes@.subrange(4 * n as int, k as int));
        }
    }
    proof {
        assert(out@ =~= Seq::new(bytes@.len() / 4, |i: int| sample_at(bytes@, i)));
        assert(rest@ =~= bytes@.skip(4 * n as int));
    }
    (out, rest)
}

/// Every output of the system can be recorded, in order, under an id that leads back to
/// it; the one in use is marked. Where none could be listed there is still one entry.
pub proof fn law_outputs_are_listed_in_order(
    devices: Seq<RenderDevice>,
    default_name: Seq<char>,
    i: int,
)
    requires
        0 <= i < devices.len(),
    ensures
        ({
            let all = render_list(devices, default_name);
            &&& all.len() == devices.len()
            &&& all[i].label == devices[i].shown_name()
            &&& parsed_id(all[i].id) == (SourceKind::Loopback, devices[i].shown_name())
            &&& all[i].available && all[i].kind == SourceKind::Loopback
            &&& all[i].is_default == (devices[i].shown_name() == default_name)
        }),
        render_list(Seq::empty(), default_name).len() == 1,
{
    law_ids_are_read_back(SourceKind::Loopback, devices[i].shown_name());
}

/// Every monitor of an output is listed, in order; that of the output in use is marked.
pub proof fn law_monitors_are_listed_in_order(
    lines: Seq<Seq<char>>,
    line: Seq<char>,
    default_sink: Seq<char>,
)
    ensures
        names_monitor(line) ==> {
            let all = monitors(lines.push(line), default_sink);
            let name = trimmed(columns(line)[1]);
            &&& all.drop_last() == monitors(lines, default_sink)
            &&& parsed_id(all.last().id) == (SourceKind::Loopback, name)
            &&& all.last().available
            &&& default_sink.len() > 0 ==> all.last().is_default == (name == default_sink
                + ".monitor"@)
        },
        !names_monitor(line) ==> monitors(lines.push(line), default_sink) == monitors(
            lines,
            default_sink,
        ),
{
    assert(lines.push(line).drop_last() =~= lines);
    law_ids_are_read_back(SourceKind::Loopback, trimmed(columns(line)[1]));
    if names_monitor(line) {
        assert(monitors(lines.push(line), default_sink).drop_last() =~= monitors(
            lines,
            default_sink,
        ));
    }
}

/// Every virtual device among the inputs is listed, in order, and no other input.
pub proof fn law_virtual_devices_are_listed_in_order(devices: Seq<InputDevice>, d: InputDevice)
    ensures
        virtual_name(d.shown_name()) ==> {
            let all = virtual_sources(devices.push(d));
            &&& all.drop_last() == virtual_sources(devices)
            &&& parsed_id(all.last().id) == (SourceKind::Loopback, d.id@)
            &&& all.last().available
        },
        !virtual_name(d.shown_name()) ==> virtual_sources(devices.push(d)) == virtual_sources(
            devices,
        ),
        has_text(d.shown_name(), "BlackHole"@) ==> virtual_source(d).is_default,
{
    assert(devices.push(d).drop_last() =~= devices);
    law_ids_are_read_back(SourceKind::Loopback, d.id@);
    if virtual_name(d.shown_name()) {
        assert(virtual_sources(devices.push(d)).drop_last() =~= virtual_sources(devices));
    }
}

} // verus!
