//! Sources of sound: which there are, which to take, and what to call them.

use vstd::prelude::*;
use vstd::string::*;
use crate::error::AppError;
use crate::error::AppResult;
use crate::error::ErrorView;
use crate::num::Single;
use crate::audio::vad::FrameEnergy;
use crate::text::blank;
use crate::text::contains;
use crate::text::decimal;
use crate::text::decimal_of;
use crate::text::ends_with;
use crate::text::eq_ignore_ascii_case;
use crate::text::ascii_lowered;
use crate::text::has_text;
use crate::text::is_blank;
use crate::text::lowered;
use crate::text::opt_view;
use crate::text::same;
use crate::text::strip_prefix;
use crate::text::to_lowered;

verus! {

/// Where sound comes from.
#[derive(Clone, Copy, Debug, PartialEq, Eq, Structural)]
pub enum SourceKind {
    Microphone,
    Loopback,
}

impl SourceKind {
    pub open spec fn prefix(self) -> Seq<char> {
        match self {
            SourceKind::Microphone => "mic"@,
            SourceKind::Loopback => "loopback"@,
        }
    }

    /// What ids of such sources begin with.
    pub fn id_prefix(&self) -> (r: &'static str)
        ensures
            r@ == self.prefix(),
    {
        match self {
            SourceKind::Microphone => "mic",
            SourceKind::Loopback => "loopback",
        }
    }

    pub fn as_str(&self) -> (r: &'static str)
        ensures
            r@ == match *self {
                SourceKind::Microphone => "microphone"@,
                SourceKind::Loopback => "loopback"@,
            },
    {
        match self {
            SourceKind::Microphone => "microphone",
            SourceKind::Loopback => "loopback",
        }
    }
}

// ---------------------------------------------------------------------------
// Ids
// ---------------------------------------------------------------------------

/// The id of a device.
pub open spec fn source_id(kind: SourceKind, name: Seq<char>) -> Seq<char> {
    kind.prefix() + ":"@ + name
}

pub fn make_id(kind: SourceKind, name: &str) -> (r: String)
    ensures
        r@ == source_id(kind, name@),
{
    let mut s = kind.id_prefix().to_owned();
    s.append(":");
    s.append(name);
    s
}

/// What an id stands for; one without a prefix is that of a microphone.
pub open spec fn parsed_id(id: Seq<char>) -> (SourceKind, Seq<char>) {
    if "loopback:"@.is_prefix_of(id) {
        (SourceKind::Loopback, id.skip("loopback:"@.len() as int))
    } else if "mic:"@.is_prefix_of(id) {
        (SourceKind::Microphone, id.skip("mic:"@.len() as int))
    } else {
        (SourceKind::Microphone, id)
    }
}

pub fn parse_id(id: &str) -> (r: (SourceKind, String))
    ensures
        (r.0, r.1@) == parsed_id(id@),
{
    if let Some(rest) = strip_prefix(id, "loopback:") {
        (SourceKind::Loopback, rest.to_owned())
    } else if let Some(rest) = strip_prefix(id, "mic:") {
        (SourceKind::Microphone, rest.to_owned())
    } else {
        (SourceKind::Microphone, id.to_owned())
    }
}

/// An id gives back the kind and the name that it was made of.
pub proof fn law_ids_are_read_back(kind: SourceKind, name: Seq<char>)
    ensures
        parsed_id(source_id(kind, name)) == (kind, name),
{
    reveal_strlit("mic");
    reveal_strlit("loopback");
    reveal_strlit(":");
    reveal_strlit("mic:");
    reveal_strlit("loopback:");
    let id = source_id(kind, name);
    match kind {
        SourceKind::Loopback => {
            assert("loopback"@ + ":"@ =~= "loopback:"@);
            assert(id =~= "loopback:"@ + name);
            assert(id.take("loopback:"@.len() as int) =~= "loopback:"@);
            assert(id.skip("loopback:"@.len() as int) =~= name);
        },
        SourceKind::Microphone => {
            assert("mic"@ + ":"@ =~= "mic:"@);
            assert(id =~= "mic:"@ + name);
            assert(id[0] == 'm');
            assert("loopback:"@[0] == 'l');
            assert(!"loopback:"@.is_prefix_of(id));
            assert(id.skip("mic:"@.len() as int) =~= name);
        },
    }
}

// ---------------------------------------------------------------------------
// Listing
// ---------------------------------------------------------------------------

/// A source that can be chosen.
#[derive(Debug)]
pub struct AudioSourceInfo {
    pub id: String,
    pub kind: SourceKind,
    pub label: String,
    pub detail: String,
    pub is_default: bool,
    pub available: bool,
    pub note: Option<String>,
}

/// Model of [`AudioSourceInfo`].
#[verifier::ext_equal]
pub ghost struct SourceInfoView {
    pub id: Seq<char>,
    pub kind: SourceKind,
    pub label: Seq<char>,
    pub detail: Seq<char>,
    pub is_default: bool,
    pub available: bool,
    pub note: Option<Seq<char>>,
}

impl View for AudioSourceInfo {
    type V = SourceInfoView;

    open spec fn view(&self) -> SourceInfoView {
        SourceInfoView {
            id: self.id@,
            kind: self.kind,
            label: self.label@,
            detail: self.detail@,
            is_default: self.is_default,
            available: self.available,
            note: opt_view(self.note),
        }
    }
}

pub open spec fn source_views(v: Seq<AudioSourceInfo>) -> Seq<SourceInfoView> {
    v.map_values(|s: AudioSourceInfo| s@)
}

/// How a device encodes samples.
#[derive(Clone, Copy, Debug, PartialEq, Eq, Structural)]
pub enum SampleFormat {
    I8,
    I16,
    I32,
    F32,
    F64,
    Other,
}

pub open spec fn format_label(f: SampleFormat) -> Seq<char> {
    match f {
        SampleFormat::I8 | SampleFormat::I16 | SampleFormat::I32 => "整型"@,
        SampleFormat::F32 | SampleFormat::F64 => "浮点"@,
        SampleFormat::Other => "未知"@,
    }
}

pub fn sample_format_label(f: SampleFormat) -> (r: &'static str)
    ensures
        r@ == format_label(f),
{
    match f {
        SampleFormat::I8 | SampleFormat::I16 | SampleFormat::I32 => "整型",
        SampleFormat::F32 | SampleFormat::F64 => "浮点",
        SampleFormat::Other => "未知",
    }
}

/// How a device records.
#[derive(Clone, Copy, Debug)]
pub struct InputFormat {
    pub rate: u32,
    pub channels: u16,
    pub format: SampleFormat,
}

/// What the system says of an input device.
#[derive(Debug)]
pub struct InputDevice {
    /// The full id, with the name of the sound system.
    pub id: String,
    /// The id within the sound system.
    pub raw_id: String,
    /// What the device calls itself, if it says.
    pub name: Option<String>,
    /// How it records, or why it cannot.
    pub input: Result<InputFormat, String>,
    pub is_default: bool,
}

impl InputDevice {
    pub open spec fn shown_name(self) -> Seq<char> {
        match self.name {
            Some(n) => n@,
            None => self.raw_id@,
        }
    }

    /// The name to show.
    pub fn display_name(&self) -> (r: String)
        ensures
            r@ == self.shown_name(),
    {
        match &self.name {
            Some(n) => n.clone(),
            None => self.raw_id.clone(),
        }
    }
}

/// "48000 Hz · 2 声道 · " and what follows.
pub open spec fn rate_text(rate: u32, channels: u16, tail: Seq<char>) -> Seq<char> {
    decimal(rate as nat) + " Hz · "@ + decimal(channels as nat) + " 声道 · "@ + tail
}

pub fn describe_rate(rate: u32, channels: u16, tail: &str) -> (r: String)
    ensures
        r@ == rate_text(rate, channels, tail@),
{
    let mut s = decimal_of(rate as u128);
    s.append(" Hz · ");
    s.append(decimal_of(channels as u128).as_str());
    s.append(" 声道 · ");
    s.append(tail);
    s
}

/// Parts of the names of devices that never record anything.
pub const NULL_HINTS: [&'static str; 15] = [
    "discard all samples",
    "generate zero samples",
    "null output",
    "zero samples",
    "dmix",
    "surround21",
    "surround40",
    "surround41",
    "surround50",
    "surround51",
    "surround71",
    "iec958",
    "hdmi",
    "modem",
    "phoneline",
];

/// Whether a lower-case name or id is that of a device that can be opened but
/// records nothing.
pub open spec fn pseudo(name: Seq<char>, id: Seq<char>) -> bool {
    ||| exists|i: int| 0 <= i < 15 && has_text(name, #[trigger] NULL_HINTS[i]@)
    ||| id == "alsa:null"@
    ||| id == "alsa:dmix"@
    ||| id == "alsa:default:null"@
    ||| ":null"@.is_suffix_of(id)
}

/// Whether a device in lower case records nothing.
pub fn names_pseudo_device(name: &str, id: &str) -> (r: bool)
    ensures
        r == pseudo(name@, id@),
{
    let mut i: usize = 0;
    while i < 15
        invariant
            i <= 15,
            forall|j: int| 0 <= j < i ==> !has_text(name@, #[trigger] NULL_HINTS[j]@),
        decreases 15 - i,
    {
        if contains(name, NULL_HINTS[i]) {
            proof {
                assert(has_text(name@, NULL_HINTS[i as int]@));
            }
            return true;
        }
        i += 1;
    }
    same(id, "alsa:null") || same(id, "alsa:dmix") || same(id, "alsa:default:null") || ends_with(
        id,
        ":null",
    )
}

/// Whether a device is a plug-in of the sound system without hardware behind
/// it.
pub fn is_pseudo_device(name: &str, id: &str) -> (r: bool)
    ensures
        r == pseudo(lowered(name@), lowered(id@)),
{
    names_pseudo_device(to_lowered(name).as_str(), to_lowered(id).as_str())
}

/// How an input device is listed.
pub open spec fn microphone(d: InputDevice) -> SourceInfoView {
    SourceInfoView {
        id: source_id(SourceKind::Microphone, d.id@),
        kind: SourceKind::Microphone,
        label: d.shown_name(),
        detail: match d.input {
            Ok(f) => rate_text(f.rate, f.channels, format_label(f.format)),
            Err(why) => "不可用："@ + why@,
        },
        is_default: d.is_default,
        available: d.input is Ok,
        note: None,
    }
}

/// The devices that are listed, in their order.
pub open spec fn microphones(devices: Seq<InputDevice>) -> Seq<SourceInfoView>
    decreases devices.len(),
{
    if devices.len() == 0 {
        Seq::empty()
    } else {
        let d = devices.last();
        let before = microphones(devices.drop_last());
        if pseudo(lowered(d.shown_name()), lowered(d.raw_id@)) {
            before
        } else {
            before.push(microphone(d))
        }
    }
}

/// Lists the microphones among the input devices.
pub fn list_microphones(devices: &Vec<InputDevice>) -> (r: Vec<AudioSourceInfo>)
    ensures
        source_views(r@) == microphones(devices@),
{
    let n: usize = devices.len();
    let mut out: Vec<AudioSourceInfo> = Vec::new();
    let mut i: usize = 0;
    proof {
        assert(source_views(out@) =~= microphones(devices@.take(0)));
    }
    while i < n
        invariant
            i <= n == devices@.len(),
            source_views(out@) == microphones(devices@.take(i as int)),
        decreases n - i,
    {
        let d = &devices[i];
        let ghost before = out@;
        proof {
            assert(devices@.take(i + 1).drop_last() =~= devices@.take(i as int));
        }
        let name = d.display_name();
        if !is_pseudo_device(name.as_str(), d.raw_id.as_str()) {
            let (detail, available) = match &d.input {
                Ok(f) => (
                    describe_rate(f.rate, f.channels, sample_format_label(f.format)),
                    true,
                ),
                Err(why) => {
                    let mut s = "不可用：".to_owned();
                    s.append(why.as_str());
                    (s, false)
                },
            };
            out.push(
                AudioSourceInfo {
                    id: make_id(SourceKind::Microphone, d.id.as_str()),
                    kind: SourceKind::Microphone,
                    label: name,
                    detail,
                    is_default: d.is_default,
                    available,
                    note: None,
                },
            );
            proof {
                assert(out@.last()@ == microphone(devices@[i as int]));
                assert(source_views(out@) =~= source_views(before).push(out@.last()@));
            }
        }
        i += 1;
    }
    proof {
        assert(devices@.take(n as int) =~= devices@);
    }
    out
}

/// Lists all sources: first the microphones, then what the system plays.
pub fn list_sources(devices: &Vec<InputDevice>, loopback: Vec<AudioSourceInfo>) -> (r: Vec<
    AudioSourceInfo,
>)
    ensures
        source_views(r@) == microphones(devices@) + source_views(loopback@),
{
    let ghost tail = source_views(loopback@);
    let mut out = list_microphones(devices);
    let ghost head = out@;
    let mut rest = loopback;
    out.append(&mut rest);
    proof {
        assert(source_views(out@) =~= source_views(head) + tail);
    }
    out
}

/// The first source at or after `from` that can be used, has the kind, and, if
/// wanted, is the system's choice.
pub open spec fn first_source(
    list: Seq<SourceInfoView>,
    kind: SourceKind,
    only_default: bool,
    from: int,
) -> Option<int>
    decreases list.len() - from,
{
    if from < 0 || from >= list.len() {
        None
    } else if list[from].kind == kind && list[from].available && (!only_default
        || list[from].is_default) {
        Some(from)
    } else {
        first_source(list, kind, only_default, from + 1)
    }
}

/// The source to take where none was chosen: the system's choice, else the first
/// that can be used.
pub open spec fn preferred_source(list: Seq<SourceInfoView>, kind: SourceKind) -> Option<int> {
    match first_source(list, kind, true, 0) {
        Some(i) => Some(i),
        None => first_source(list, kind, false, 0),
    }
}

fn find_source(list: &Vec<AudioSourceInfo>, kind: SourceKind, only_default: bool) -> (r: Option<
    usize,
>)
    ensures
        match r {
            Some(i) => first_source(source_views(list@), kind, only_default, 0) == Some(i as int)
                && i < list@.len(),
            None => first_source(source_views(list@), kind, only_default, 0) is None,
        },
{
    let n: usize = list.len();
    let ghost all = source_views(list@);
    let mut i: usize = 0;
    while i < n
        invariant
            i <= n == list@.len(),
            all == source_views(list@),
            first_source(all, kind, only_default, 0) == first_source(
                all,
                kind,
                only_default,
                i as int,
            ),
        decreases n - i,
    {
        let s = &list[i];
        proof {
            assert(all[i as int] == list@[i as int]@);
        }
        if s.kind == kind && s.available && (!only_default || s.is_default) {
            return Some(i);
        }
        i += 1;
    }
    None
}

/// The id of the source to take where none was chosen.
pub fn default_source_id(list: &Vec<AudioSourceInfo>, kind: SourceKind) -> (r: Option<String>)
    ensures
        match preferred_source(source_views(list@), kind) {
            Some(i) => r matches Some(id) && id@ == source_views(list@)[i].id,
            None => r is None,
        },
{
    let i: Option<usize> = match find_source(list, kind, true) {
        Some(i) => Some(i),
        None => find_source(list, kind, false),
    };
    match i {
        Some(i) => {
            proof {
                assert(source_views(list@)[i as int] == list@[i as int]@);
            }
            Some(list[i].id.clone())
        },
        None => None,
    }
}

// ---------------------------------------------------------------------------
// Recording
// ---------------------------------------------------------------------------

/// A source in use.
#[derive(Debug)]
pub struct SourceDescriptor {
    pub id: String,
    pub kind: SourceKind,
    pub label: String,
}

/// The level of a source.
#[derive(Debug)]
pub struct SourceLevel {
    pub source_id: String,
    pub kind: SourceKind,
    pub energy: FrameEnergy,
}

/// A frame of 16 kHz mono audio with the levels of its sources.
#[derive(Debug)]
pub struct MixedFrame {
    pub samples: Vec<Single>,
    pub levels: Vec<SourceLevel>,
}

#[derive(Debug)]
pub struct CaptureConfig {
    pub mic_device_id: Option<String>,
    pub loopback_device_id: Option<String>,
    pub mic_gain: Single,
    pub loopback_gain: Single,
}

/// A source to be opened: what to open and how strongly it is mixed.
#[derive(Debug)]
pub struct PlannedSource {
    pub source: SourceDescriptor,
    pub device: String,
    pub gain: Single,
}

/// Model of [`PlannedSource`].
#[verifier::ext_equal]
pub ghost struct PlannedView {
    pub id: Seq<char>,
    pub kind: SourceKind,
    pub label: Seq<char>,
    pub device: Seq<char>,
    pub gain: Single,
}

impl View for PlannedSource {
    type V = PlannedView;

    open spec fn view(&self) -> PlannedView {
        PlannedView {
            id: self.source.id@,
            kind: self.source.kind,
            label: self.source.label@,
            device: self.device@,
            gain: self.gain,
        }
    }
}

pub open spec fn planned_views(v: Seq<PlannedSource>) -> Seq<PlannedView> {
    v.map_values(|p: PlannedSource| p@)
}

/// Most that a source is amplified: four times.
pub const MAX_GAIN_BITS: u32 = 0x4080_0000;

pub open spec fn planned(kind: SourceKind, id: Seq<char>, gain: Single) -> PlannedView {
    let device = parsed_id(id).1;
    PlannedView {
        id,
        kind,
        label: match kind {
            SourceKind::Microphone => "麦克风（"@,
            SourceKind::Loopback => "系统声音（"@,
        } + device + "）"@,
        device,
        gain: gain.clamped(Single { bits: 0 }, Single { bits: MAX_GAIN_BITS }),
    }
}

/// The sources of a recording: the microphone first. The place of a source in
/// this list is its index in everything that follows.
pub open spec fn capture_plan(
    mic: Option<Seq<char>>,
    loopback: Option<Seq<char>>,
    mic_gain: Single,
    loopback_gain: Single,
) -> Seq<PlannedView> {
    let first = match mic {
        Some(id) => seq![planned(SourceKind::Microphone, id, mic_gain)],
        None => Seq::empty(),
    };
    match loopback {
        Some(id) => first.push(planned(SourceKind::Loopback, id, loopback_gain)),
        None => first,
    }
}

fn plan_source(kind: SourceKind, id: &str, gain: Single) -> (r: PlannedSource)
    ensures
        r@ == planned(kind, id@, gain),
{
    let (_, device) = parse_id(id);
    let mut label = match kind {
        SourceKind::Microphone => "麦克风（".to_owned(),
        SourceKind::Loopback => "系统声音（".to_owned(),
    };
    label.append(device.as_str());
    label.append("）");
    PlannedSource {
        source: SourceDescriptor { id: id.to_owned(), kind, label },
        device,
        gain: gain.clamp(Single { bits: 0 }, Single { bits: MAX_GAIN_BITS }),
    }
}

/// Says what to open. A recording without a source is an error.
pub fn plan_capture(config: &CaptureConfig) -> (r: AppResult<Vec<PlannedSource>>)
    ensures
        match r {
            Ok(v) => (config.mic_device_id is Some || config.loopback_device_id is Some)
                && planned_views(v@) == capture_plan(
                opt_view(config.mic_device_id),
                opt_view(config.loopback_device_id),
                config.mic_gain,
                config.loopback_gain,
            ),
            Err(e) => config.mic_device_id is None && config.loopback_device_id is None && e@
                == ErrorView::Audio(
                "没有选择任何音频来源，请至少勾选麦克风或系统内录"@,
            ),
        },
{
    let mut out: Vec<PlannedSource> = Vec::new();
    if let Some(id) = &config.mic_device_id {
        out.push(plan_source(SourceKind::Microphone, id.as_str(), config.mic_gain));
    }
    if let Some(id) = &config.loopback_device_id {
        out.push(plan_source(SourceKind::Loopback, id.as_str(), config.loopback_gain));
    }
    if out.len() == 0 {
        return Err(
            AppError::audio("没有选择任何音频来源，请至少勾选麦克风或系统内录"),
        );
    }
    proof {
        assert(planned_views(out@) =~= capture_plan(
            opt_view(config.mic_device_id),
            opt_view(config.loopback_device_id),
            config.mic_gain,
            config.loopback_gain,
        ));
    }
    Ok(out)
}

/// What is told when the recording of a source ends with an error.
pub fn capture_failure(kind: SourceKind, why: &str) -> (r: String)
    ensures
        r@ == match kind {
            SourceKind::Microphone => "麦克风采集失败："@,
            SourceKind::Loopback => "系统内录失败："@,
        } + why@,
{
    let mut s = match kind {
        SourceKind::Microphone => "麦克风采集失败：".to_owned(),
        SourceKind::Loopback => "系统内录失败：".to_owned(),
    };
    s.append(why);
    s
}

/// Whether a name stands for the system's default device.
pub open spec fn means_default(name: Seq<char>) -> bool {
    blank(name) || ascii_lowered(name) == ascii_lowered("default"@)
}

pub fn wants_default_device(name: &str) -> (r: bool)
    ensures
        r == means_default(name@),
{
    is_blank(name) || eq_ignore_ascii_case(name, "default")
}

/// The error where the device to record from is not there.
pub fn missing_input(name: &str) -> (r: AppError)
    ensures
        r@ == ErrorView::Audio(
            if means_default(name@) {
                "系统没有可用的默认输入设备"@
            } else {
                "找不到输入设备「"@ + name@ + "」，可能已被拔出"@
            },
        ),
{
    if wants_default_device(name) {
        AppError::audio("系统没有可用的默认输入设备")
    } else {
        let mut m = "找不到输入设备「".to_owned();
        m.append(name);
        m.append("」，可能已被拔出");
        AppError::Audio(m)
    }
}

/// The source that is taken where none was chosen can be used and is of the right
/// kind; it is the system's choice if that can be used, and there is one whenever any
/// source can be used.
pub proof fn law_preferred_source_can_be_used(list: Seq<SourceInfoView>, kind: SourceKind, k: int)
    requires
        0 <= k < list.len(),
    ensures
        preferred_source(list, kind) matches Some(i) ==> 0 <= i < list.len() && list[i].kind == kind
            && list[i].available,
        list[k].kind == kind && list[k].available ==> preferred_source(list, kind) is Some,
        list[k].kind == kind && list[k].available && list[k].is_default ==> (preferred_source(
            list,
            kind,
        ) matches Some(i) && list[i].is_default),
{
    lemma_first_source(list, kind, true, 0, k);
    lemma_first_source(list, kind, false, 0, k);
}

proof fn lemma_first_source(
    list: Seq<SourceInfoView>,
    kind: SourceKind,
    only_default: bool,
    from: int,
    k: int,
)
    requires
        0 <= from,
    ensures
        first_source(list, kind, only_default, from) matches Some(i) ==> from <= i < list.len()
            && list[i].kind == kind && list[i].available && (!only_default || list[i].is_default),
        from <= k < list.len() && list[k].kind == kind && list[k].available && (!only_default
            || list[k].is_default) ==> first_source(list, kind, only_default, from) is Some,
    decreases list.len() - from,
{
    if from < list.len() {
        lemma_first_source(list, kind, only_default, from + 1, k);
    }
}

/// A recording has the sources that were chosen, the microphone first, each with its
/// own device and its own gain.
pub proof fn law_recordings_have_the_chosen_sources(
    mic: Seq<char>,
    loopback: Seq<char>,
    mic_gain: Single,
    loopback_gain: Single,
)
    ensures
        ({
            let both = capture_plan(Some(mic), Some(loopback), mic_gain, loopback_gain);
            &&& both.len() == 2
            &&& both[0].kind == SourceKind::Microphone && both[0].id == mic && both[0].device
                == parsed_id(mic).1
            &&& both[1].kind == SourceKind::Loopback && both[1].id == loopback && both[1].device
                == parsed_id(loopback).1
            &&& both[0].gain == mic_gain.clamped(
                Single { bits: 0 },
                Single { bits: 0x4080_0000 },
            )
            &&& both[1].gain == loopback_gain.clamped(
                Single { bits: 0 },
                Single { bits: 0x4080_0000 },
            )
            &&& capture_plan(Some(mic), None, mic_gain, loopback_gain) == seq![both[0]]
            &&& capture_plan(None, Some(loopback), mic_gain, loopback_gain) == seq![both[1]]
            &&& capture_plan(None, None, mic_gain, loopback_gain).len() == 0
        }),
{
    let both = capture_plan(Some(mic), Some(loopback), mic_gain, loopback_gain);
    assert(capture_plan(None, Some(loopback), mic_gain, loopback_gain) =~= seq![both[1]]);
    assert(capture_plan(Some(mic), None, mic_gain, loopback_gain) =~= seq![both[0]]);
}

/// Every input device that records something is listed, in order, by its name and with
/// an id that leads back to it; devices that record nothing are not.
pub proof fn law_microphones_are_listed_in_order(devices: Seq<InputDevice>, d: InputDevice)
    ensures
        microphones(Seq::empty()).len() == 0,
        !pseudo(lowered(d.shown_name()), lowered(d.raw_id@)) ==> {
            let all = microphones(devices.push(d));
            &&& all.drop_last() == microphones(devices)
            &&& all.last().label == d.shown_name() && all.last().kind == SourceKind::Microphone
            &&& parsed_id(all.last().id) == (SourceKind::Microphone, d.id@)
            &&& all.last().is_default == d.is_default && all.last().available == (d.input is Ok)
        },
        pseudo(lowered(d.shown_name()), lowered(d.raw_id@)) ==> microphones(devices.push(d))
            == microphones(devices),
{
    assert(devices.push(d).drop_last() =~= devices);
    law_ids_are_read_back(SourceKind::Microphone, d.id@);
    let all = microphones(devices.push(d));
    if !pseudo(lowered(d.shown_name()), lowered(d.raw_id@)) {
        assert(all.drop_last() =~= microphones(devices));
    }
}

/// What [`plan_capture`] plans: the devices that were chosen, and an error where there
/// is none.
pub proof fn law_chosen_devices_are_recorded(config: &CaptureConfig, r: AppResult<Vec<PlannedSource>>)
    requires
        call_ensures(plan_capture, (config,), r),
    ensures
        config.mic_device_id is None && config.loopback_device_id is None ==> r is Err,
        config.mic_device_id matches Some(m) ==> (r matches Ok(v) && v@.len() >= 1
            && v@[0].source.kind == SourceKind::Microphone && v@[0].source.id@ == m@ && v@[0].gain
            == config.mic_gain.clamped(Single { bits: 0 }, Single { bits: 0x4080_0000 })),
        config.loopback_device_id matches Some(l) ==> (r matches Ok(v) && v@.len() >= 1
            && v@.last().source.kind == SourceKind::Loopback && v@.last().source.id@ == l@
            && v@.last().gain == config.loopback_gain.clamped(
            Single { bits: 0 },
            Single { bits: 0x4080_0000 },
        )),
        config.mic_device_id is Some && config.loopback_device_id is Some ==> (r matches Ok(v)
            && v@.len() == 2),
{
    if let Ok(v) = r {
        let n = v@.len() as int;
        assert(planned_views(v@).len() == n);
        if n > 0 {
            assert(planned_views(v@)[0] == v@[0]@);
            assert(planned_views(v@)[n - 1] == v@[n - 1]@);
        }
    }
}

} // verus!
