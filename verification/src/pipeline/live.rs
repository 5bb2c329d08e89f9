//! What a running recording reports: whose voice it is, how loud the sources
//! are, and how often to say so.

use vstd::prelude::*;
use vstd::string::*;
use crate::audio::capture::SourceKind;
use crate::audio::capture::SourceLevel;
use crate::audio::vad::FrameEnergy;
use crate::num::Double;
use crate::num::Single;
use crate::pipeline::segmenter::Segmenter;
use crate::pipeline::segmenter::SourceShare;
use crate::pipeline::segmenter::fresh;
use crate::pipeline::timeline::sane;
use crate::session::Session;
use crate::session::SessionStats;
use crate::session::SessionView;
use crate::session::Speaker;
use crate::settings::AsrSettings;
use crate::settings::AsrSettingsView;
use crate::settings::VadSettings;
use crate::text::same;

verus! {

// ---------------------------------------------------------------------------
// Whose voice
// ---------------------------------------------------------------------------

/// 1e-9: below it there is silence.
pub const SILENT_ENERGY_BITS: u64 = 0x3e11_2e0b_e826_d695;

/// 0.78: from this share on, one source is the only one that counts.
pub const MOSTLY_BITS: u64 = 0x3fe8_f5c2_8f5c_28f6;

/// 0.22: up to this share, a source does not count.
pub const HARDLY_BITS: u64 = 0x3fcc_28f5_c28f_5c29;

/// Whose voice is heard, by the energy of all sources and the microphone's
/// share of it.
pub open spec fn speaker_of(total: Double, mic_ratio: Double) -> Speaker {
    if total.at_most(Double { bits: SILENT_ENERGY_BITS }) {
        Speaker::Unknown
    } else if (Double { bits: MOSTLY_BITS }).at_most(mic_ratio) {
        Speaker::Me
    } else if mic_ratio.at_most(Double { bits: HARDLY_BITS }) {
        Speaker::Others
    } else {
        Speaker::Mixed
    }
}

pub fn speaker_by_energy(total: Double, mic_ratio: Double) -> (r: Speaker)
    ensures
        r == speaker_of(total, mic_ratio),
{
    if total.le(Double { bits: SILENT_ENERGY_BITS }) {
        Speaker::Unknown
    } else if (Double { bits: MOSTLY_BITS }).le(mic_ratio) {
        Speaker::Me
    } else if mic_ratio.le(Double { bits: HARDLY_BITS }) {
        Speaker::Others
    } else {
        Speaker::Mixed
    }
}

impl SourceShare {
    /// Whose voice is heard. `measure` adds up the squares of the levels and
    /// returns the sum and the microphone's share of it.
    pub fn speaker<M>(&self, measure: &M) -> (r: Speaker) where
        M: Fn(&[(SourceKind, Single)]) -> (Double, Double),

        requires
            forall|s: &[(SourceKind, Single)]| #[trigger] call_requires(*measure, (s,)),
        ensures
            exists|s: &[(SourceKind, Single)], m: (Double, Double)|
                s@ == self@ && #[trigger] call_ensures(*measure, (s,), m) && r == speaker_of(
                    m.0,
                    m.1,
                ),
    {
        let m: (Double, Double) = measure(self.frames.as_slice());
        speaker_by_energy(m.0, m.1)
    }
}

/// Whose voice is heard where only one source is recorded.
pub open spec fn single_speaker(kind: Option<SourceKind>) -> Speaker {
    match kind {
        Some(SourceKind::Microphone) => Speaker::Me,
        Some(SourceKind::Loopback) => Speaker::Others,
        None => Speaker::Unknown,
    }
}

pub fn speaker_for_single_source(kind: Option<SourceKind>) -> (r: Speaker)
    ensures
        r == single_speaker(kind),
{
    match kind {
        Some(SourceKind::Microphone) => Speaker::Me,
        Some(SourceKind::Loopback) => Speaker::Others,
        None => Speaker::Unknown,
    }
}

/// The only source of a recording, if it has just one: as the caller says, else
/// as the source itself is.
pub fn single_source(sources: &Vec<(String, SourceKind)>, given: Option<SourceKind>) -> (r: Option<
    SourceKind,
>)
    ensures
        r == if sources@.len() != 1 {
            None
        } else if given is Some {
            given
        } else {
            Some(sources@[0].1)
        },
{
    if sources.len() != 1 {
        return None;
    }
    match given {
        Some(k) => Some(k),
        None => Some(sources[0].1),
    }
}

// ---------------------------------------------------------------------------
// How long an utterance may be
// ---------------------------------------------------------------------------

/// The settings for cutting speech: no utterance is longer than one request may
/// upload.
pub open spec fn cut_settings(vad: VadSettings, max_chunk_secs: int) -> VadSettings {
    VadSettings {
        max_utterance_ms: if vad.max_utterance_ms <= max_chunk_secs * 1000 {
            vad.max_utterance_ms
        } else {
            (max_chunk_secs * 1000) as u32
        },
        ..vad
    }
}

pub fn settings_for_cutting(vad: &VadSettings, asr: &AsrSettings) -> (r: VadSettings)
    ensures
        r == cut_settings(*vad, asr@.max_chunk_secs as int),
{
    let limit: u64 = asr.max_chunk_secs as u64 * 1000;
    let mut r = *vad;
    if r.max_utterance_ms as u64 > limit {
        r.max_utterance_ms = limit as u32;
    }
    r
}

/// Settings in range stay such that utterances are cut in order, and a request
/// never uploads more than it may.
pub proof fn law_uploads_stay_within_limits(vad: VadSettings, asr: AsrSettingsView)
    ensures
        ({
            let r = cut_settings(vad.in_range(), asr.in_range().max_chunk_secs as int);
            &&& r.max_utterance_ms <= asr.in_range().max_chunk_secs * 1000
            &&& r.max_utterance_ms <= vad.in_range().max_utterance_ms
            &&& sane(fresh(r, false))
        }),
{
}

// ---------------------------------------------------------------------------
// Levels
// ---------------------------------------------------------------------------

/// -120 dB, as good as silence.
pub const SILENT_DB_BITS: u32 = 0xc2f0_0000;

pub open spec fn no_energy() -> FrameEnergy {
    FrameEnergy {
        rms: Single { bits: 0 },
        peak: Single { bits: 0 },
        db: Single { bits: SILENT_DB_BITS },
    }
}

/// The level of a source in a frame at or after `from`; silence if the frame
/// says nothing of it.
pub open spec fn level_of(levels: Seq<SourceLevel>, id: Seq<char>, from: int) -> FrameEnergy
    decreases levels.len() - from,
{
    if from < 0 || from >= levels.len() {
        no_energy()
    } else if levels[from].source_id@ == id {
        levels[from].energy
    } else {
        level_of(levels, id, from + 1)
    }
}

fn find_level(levels: &Vec<SourceLevel>, id: &str) -> (r: FrameEnergy)
    ensures
        r == level_of(levels@, id@, 0),
{
    let n: usize = levels.len();
    let mut i: usize = 0;
    while i < n
        invariant
            i <= n == levels@.len(),
            level_of(levels@, id@, 0) == level_of(levels@, id@, i as int),
        decreases n - i,
    {
        if same(levels[i].source_id.as_str(), id) {
            return levels[i].energy;
        }
        i += 1;
    }
    FrameEnergy {
        rms: Single::zero(),
        peak: Single::zero(),
        db: Single { bits: SILENT_DB_BITS },
    }
}

/// The levels of the sources in the order of the sources, whatever the order in
/// the frame is.
pub fn levels_in_order(sources: &Vec<(String, SourceKind)>, levels: &Vec<SourceLevel>) -> (r: Vec<
    (String, SourceKind, FrameEnergy),
>)
    ensures
        r@.len() == sources@.len(),
        forall|i: int|
            0 <= i < r@.len() ==> {
                &&& (#[trigger] r@[i]).0@ == sources@[i].0@
                &&& r@[i].1 == sources@[i].1
                &&& r@[i].2 == level_of(levels@, sources@[i].0@, 0)
            },
{
    let n: usize = sources.len();
    let mut out: Vec<(String, SourceKind, FrameEnergy)> = Vec::new();
    let mut i: usize = 0;
    while i < n
        invariant
            i <= n == sources@.len(),
            out@.len() == i,
            forall|j: int|
                0 <= j < i ==> {
                    &&& (#[trigger] out@[j]).0@ == sources@[j].0@
                    &&& out@[j].1 == sources@[j].1
                    &&& out@[j].2 == level_of(levels@, sources@[j].0@, 0)
                },
        decreases n - i,
    {
        let s = &sources[i];
        out.push((s.0.clone(), s.1, find_level(levels, s.0.as_str())));
        i += 1;
    }
    out
}

// ---------------------------------------------------------------------------
// How often
// ---------------------------------------------------------------------------

/// Levels are reported ten times a second.
pub const LEVEL_STEP_MS: i64 = 100;

/// The session is reported once a second.
pub const UPDATE_STEP_MS: i64 = 1_000;

/// When things were last reported, in recorded time.
pub struct Pace {
    pub last_level_ms: i64,
    pub last_update_ms: i64,
}

impl Pace {
    pub fn new() -> (r: Pace)
        ensures
            r.last_level_ms == -100,
            r.last_update_ms == 0,
    {
        Pace { last_level_ms: -100, last_update_ms: 0 }
    }

    /// Says what to report when the recording has reached `audio_ms`: the levels,
    /// and the session.
    pub fn step(&mut self, audio_ms: i64) -> (r: (bool, bool))
        requires
            0 <= audio_ms,
            -100 <= old(self).last_level_ms,
            0 <= old(self).last_update_ms,
            audio_ms <= i64::MAX - 100,
        ensures
            r.0 == (audio_ms - old(self).last_level_ms >= LEVEL_STEP_MS),
            r.1 == (audio_ms - old(self).last_update_ms >= UPDATE_STEP_MS),
            final(self).last_level_ms == if r.0 {
                audio_ms
            } else {
                old(self).last_level_ms
            },
            final(self).last_update_ms == if r.1 {
                audio_ms
            } else {
                old(self).last_update_ms
            },
    {
        let level: bool = audio_ms - self.last_level_ms >= LEVEL_STEP_MS;
        let update: bool = audio_ms - self.last_update_ms >= UPDATE_STEP_MS;
        if level {
            self.last_level_ms = audio_ms;
        }
        if update {
            self.last_update_ms = audio_ms;
        }
        (level, update)
    }
}

/// Writes down how much was recorded and how much of it is speech.
pub fn note_progress(session: &mut Session, segmenter: &Segmenter)
    ensures
        final(session)@ == (SessionView {
            stats: SessionStats {
                audio_ms: segmenter@.audio as i64,
                speech_ms: segmenter@.total_speech as i64,
                ..old(session)@.stats
            },
            ..old(session)@
        }),
{
    session.stats.audio_ms = segmenter.audio_ms();
    session.stats.speech_ms = segmenter.total_speech_ms();
}

// ---------------------------------------------------------------------------
// Feeding a file
// ---------------------------------------------------------------------------

/// The piece of a recording that begins at `pos`: where it ends.
pub open spec fn piece_end(pos: int, step: int, total: int) -> int {
    if pos + step < total {
        pos + step
    } else {
        total
    }
}

/// Speakers are told by the share of the microphone: from 0.78 of the energy on it is
/// the user, up to 0.22 it is the others, and both in between; in silence it is
/// nobody. With a single source it is always the one behind that source.
pub proof fn law_speakers_are_told_by_the_microphone(total: Double, ratio: Double)
    ensures
        total.at_most(Double { bits: 0x3e11_2e0b_e826_d695 }) ==> speaker_of(total, ratio)
            == Speaker::Unknown,
        !total.at_most(Double { bits: 0x3e11_2e0b_e826_d695 }) ==> {
            &&& (Double { bits: 0x3fe8_f5c2_8f5c_28f6 }).at_most(ratio) ==> speaker_of(total, ratio)
                == Speaker::Me
            &&& !(Double { bits: 0x3fe8_f5c2_8f5c_28f6 }).at_most(ratio) && ratio.at_most(
                Double { bits: 0x3fcc_28f5_c28f_5c29 },
            ) ==> speaker_of(total, ratio) == Speaker::Others
            &&& !(Double { bits: 0x3fe8_f5c2_8f5c_28f6 }).at_most(ratio) && !ratio.at_most(
                Double { bits: 0x3fcc_28f5_c28f_5c29 },
            ) ==> speaker_of(total, ratio) == Speaker::Mixed
        },
        single_speaker(Some(SourceKind::Microphone)) == Speaker::Me,
        single_speaker(Some(SourceKind::Loopback)) == Speaker::Others,
        single_speaker(None) == Speaker::Unknown,
{
}

/// The level shown for a source is the first that the frame gives for it, and silence
/// where the frame gives none.
pub proof fn law_levels_belong_to_their_source(levels: Seq<SourceLevel>, id: Seq<char>, i: int)
    requires
        0 <= i <= levels.len(),
        forall|k: int| 0 <= k < i ==> (#[trigger] levels[k]).source_id@ != id,
    ensures
        i < levels.len() && levels[i].source_id@ == id ==> level_of(levels, id, 0)
            == levels[i].energy,
        i == levels.len() ==> level_of(levels, id, 0).rms.bits == 0,
{
    lemma_level_of(levels, id, i, 0);
}

proof fn lemma_level_of(levels: Seq<SourceLevel>, id: Seq<char>, i: int, from: int)
    requires
        0 <= from <= i <= levels.len(),
        forall|k: int| 0 <= k < i ==> (#[trigger] levels[k]).source_id@ != id,
    ensures
        level_of(levels, id, from) == level_of(levels, id, i),
    decreases i - from,
{
    if from < i {
        assert(levels[from].source_id@ != id);
        lemma_level_of(levels, id, i, from + 1);
    }
}

/// Cuts a recording into pieces of `step` samples; the last may be shorter.
pub fn cut_pieces(total: usize, step: usize) -> (r: Vec<(usize, usize)>)
    requires
        step > 0,
    ensures
        total == 0 ==> r@.len() == 0,
        total > 0 ==> r@.len() > 0 && r@[0].0 == 0 && r@.last().1 == total,
        forall|i: int|
            0 <= i < r@.len() ==> (#[trigger] r@[i]).0 < r@[i].1 && r@[i].1 == piece_end(
                r@[i].0 as int,
                step as int,
                total as int,
            ),
        forall|i: int| 0 <= i < r@.len() - 1 ==> (#[trigger] r@[i]).1 == r@[i + 1].0,
{
    let mut out: Vec<(usize, usize)> = Vec::new();
    let mut pos: usize = 0;
    while pos < total
        invariant
            pos <= total,
            step > 0,
            pos == 0 ==> out@.len() == 0,
            pos > 0 ==> out@.len() > 0 && out@[0].0 == 0 && out@.last().1 == pos,
            forall|i: int|
                0 <= i < out@.len() ==> (#[trigger] out@[i]).0 < out@[i].1 && out@[i].1
                    == piece_end(out@[i].0 as int, step as int, total as int),
            forall|i: int| 0 <= i < out@.len() - 1 ==> (#[trigger] out@[i]).1 == out@[i + 1].0,
        decreases total - pos,
    {
        let end: usize = if total - pos > step {
            pos + step
        } else {
            total
        };
        out.push((pos, end));
        pos = end;
    }
    out
}

} // verus!
