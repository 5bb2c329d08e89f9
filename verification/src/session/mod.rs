//! Sessions: what was said, the minutes, and figures about them.

use vstd::prelude::*;
use vstd::string::*;
use crate::ai::summarizer::SummaryState;
use crate::ai::summarizer::SummaryView;
use crate::ai::summarizer::no_summary;
use crate::error::AppError;
use crate::error::AppResult;
use crate::error::ErrorView;
use crate::num::Single;
use crate::text::ascii_alphanumeric;
use crate::text::copy_opt;
use crate::text::is_ascii_alphanumeric;
use crate::text::opt_view;
use crate::text::to_chars;
use crate::text::trim;
use crate::text::trimmed;
use crate::util::clock;
use crate::util::format_clock;
use crate::util::middle_truncated;
use crate::util::fresh_uuid;
use crate::util::hex_digit;
use crate::util::now_ms;
use crate::util::truncate_middle;

pub mod export;

pub use export::{default_title, render_export, srt_timestamp, ExportFormat};

verus! {

/// Who speaks.
#[derive(Clone, Copy, Debug, PartialEq, Eq, Structural)]
pub enum Speaker {
    Me,
    Others,
    Mixed,
    Unknown,
}

/// A recognised utterance.
#[derive(Debug)]
pub struct TranscriptSegment {
    pub id: u64,
    pub text: String,
    pub start_ms: i64,
    pub end_ms: i64,
    pub confidence: Option<Single>,
    /// Why the text is doubtful, if it is. A doubtful text is shown like any
    /// other, but kept out of the minutes.
    pub suspect: Option<String>,
}

#[verifier::ext_equal]
pub ghost struct SegmentView {
    pub id: u64,
    pub text: Seq<char>,
    pub start: i64,
    pub end: i64,
    pub confidence: Option<Single>,
    pub suspect: Option<Seq<char>>,
}

impl View for TranscriptSegment {
    type V = SegmentView;

    open spec fn view(&self) -> SegmentView {
        SegmentView {
            id: self.id,
            text: self.text@,
            start: self.start_ms,
            end: self.end_ms,
            confidence: self.confidence,
            suspect: opt_view(self.suspect),
        }
    }
}

pub open spec fn segment_views(v: Seq<TranscriptSegment>) -> Seq<SegmentView> {
    v.map_values(|s: TranscriptSegment| s@)
}

impl TranscriptSegment {
    pub fn duration_ms(&self) -> (r: i64)
        requires
            i64::MIN <= self.end_ms - self.start_ms <= i64::MAX,
        ensures
            r == if self.end_ms >= self.start_ms {
                self.end_ms - self.start_ms
            } else {
                0
            },
    {
        if self.end_ms >= self.start_ms {
            self.end_ms - self.start_ms
        } else {
            0
        }
    }

    /// A copy of the segment.
    pub fn duplicate(&self) -> (r: TranscriptSegment)
        ensures
            r@ == self@,
    {
        TranscriptSegment {
            id: self.id,
            text: self.text.clone(),
            start_ms: self.start_ms,
            end_ms: self.end_ms,
            confidence: self.confidence,
            suspect: copy_opt(&self.suspect),
        }
    }
}

/// Figures about a session.
#[derive(Clone, Copy, Debug, PartialEq, Eq, Structural)]
pub struct SessionStats {
    /// Total duration of speech.
    pub speech_ms: i64,
    /// Total duration of audio.
    pub audio_ms: i64,
    pub chars: i64,
    /// Time that recognition takes, relative to the duration of the audio.
    pub rtf: Single,
    /// Median time from the end of an utterance to its text.
    pub latency_ms: i64,
    pub segments: i64,
}

/// No figures yet.
pub open spec fn no_stats() -> SessionStats {
    SessionStats {
        speech_ms: 0,
        audio_ms: 0,
        chars: 0,
        rtf: Single { bits: 0 },
        latency_ms: 0,
        segments: 0,
    }
}

impl Default for SessionStats {
    fn default() -> (r: SessionStats)
        ensures
            r == no_stats(),
    {
        SessionStats {
            speech_ms: 0,
            audio_ms: 0,
            chars: 0,
            rtf: Single::zero(),
            latency_ms: 0,
            segments: 0,
        }
    }
}

/// How a session is recorded.
#[derive(Debug)]
pub struct SessionConfig {
    pub model_id: String,
    pub enable_mic: bool,
    pub enable_loopback: bool,
    pub mic_label: Option<String>,
    pub loopback_label: Option<String>,
}

#[verifier::ext_equal]
pub ghost struct ConfigView {
    pub model_id: Seq<char>,
    pub enable_mic: bool,
    pub enable_loopback: bool,
    pub mic_label: Option<Seq<char>>,
    pub loopback_label: Option<Seq<char>>,
}

impl View for SessionConfig {
    type V = ConfigView;

    open spec fn view(&self) -> ConfigView {
        ConfigView {
            model_id: self.model_id@,
            enable_mic: self.enable_mic,
            enable_loopback: self.enable_loopback,
            mic_label: opt_view(self.mic_label),
            loopback_label: opt_view(self.loopback_label),
        }
    }
}

pub open spec fn no_config() -> ConfigView {
    ConfigView {
        model_id: Seq::empty(),
        enable_mic: false,
        enable_loopback: false,
        mic_label: None,
        loopback_label: None,
    }
}

impl Default for SessionConfig {
    fn default() -> (r: SessionConfig)
        ensures
            r@ == no_config(),
    {
        SessionConfig {
            model_id: String::new(),
            enable_mic: false,
            enable_loopback: false,
            mic_label: None,
            loopback_label: None,
        }
    }
}

impl SessionConfig {
    /// A copy of the configuration.
    pub fn duplicate(&self) -> (r: SessionConfig)
        ensures
            r@ == self@,
    {
        SessionConfig {
            model_id: self.model_id.clone(),
            enable_mic: self.enable_mic,
            enable_loopback: self.enable_loopback,
            mic_label: copy_opt(&self.mic_label),
            loopback_label: copy_opt(&self.loopback_label),
        }
    }
}

#[derive(Clone, Copy, Debug, PartialEq, Eq, Structural)]
pub enum SessionStatus {
    Recording,
    Paused,
    Finished,
    Error,
}

/// What is shown of a session.
#[derive(Debug)]
pub struct SessionInfo {
    pub id: String,
    pub title: String,
    pub status: SessionStatus,
    pub created_at: i64,
    pub duration_ms: i64,
    pub config: SessionConfig,
    pub error: Option<String>,
}

/// All of a session.
#[derive(Debug)]
pub struct SessionDetail {
    pub id: String,
    pub title: String,
    pub status: SessionStatus,
    pub created_at: i64,
    pub duration_ms: i64,
    pub config: SessionConfig,
    pub error: Option<String>,
    pub segments: Vec<TranscriptSegment>,
    pub summary: SummaryState,
    pub report_md: Option<String>,
    pub audio_path: Option<String>,
    pub stats: SessionStats,
}

/// What a list shows of a session.
#[derive(Debug)]
pub struct SessionListItem {
    pub id: String,
    pub title: String,
    pub status: SessionStatus,
    pub created_at: i64,
    pub duration_ms: i64,
    pub segments: usize,
    pub chars: i64,
    pub has_summary: bool,
    pub audio_path: Option<String>,
}

#[verifier::ext_equal]
pub ghost struct ListItemView {
    pub id: Seq<char>,
    pub title: Seq<char>,
    pub status: SessionStatus,
    pub created_at: i64,
    pub duration: i64,
    pub segments: nat,
    pub chars: i64,
    pub has_summary: bool,
    pub audio_path: Option<Seq<char>>,
}

impl View for SessionListItem {
    type V = ListItemView;

    open spec fn view(&self) -> ListItemView {
        ListItemView {
            id: self.id@,
            title: self.title@,
            status: self.status,
            created_at: self.created_at,
            duration: self.duration_ms,
            segments: self.segments as nat,
            chars: self.chars,
            has_summary: self.has_summary,
            audio_path: opt_view(self.audio_path),
        }
    }
}

pub open spec fn list_views(v: Seq<SessionListItem>) -> Seq<ListItemView> {
    v.map_values(|i: SessionListItem| i@)
}

/// A session.
#[derive(Debug)]
pub struct Session {
    pub id: String,
    pub title: String,
    pub status: SessionStatus,
    pub created_at: i64,
    /// Duration of the recording without pauses, up to the last resumption.
    pub duration_ms: i64,
    pub config: SessionConfig,
    pub error: Option<String>,
    pub segments: Vec<TranscriptSegment>,
    pub summary: SummaryState,
    pub report_md: Option<String>,
    pub audio_path: Option<String>,
    pub stats: SessionStats,
    /// When recording was last resumed.
    pub resumed_at: Option<i64>,
    /// The id of the next segment; zero where it must be found first.
    pub next_segment_id: u64,
}

#[verifier::ext_equal]
pub ghost struct SessionView {
    pub id: Seq<char>,
    pub title: Seq<char>,
    pub status: SessionStatus,
    pub created_at: i64,
    pub duration: i64,
    pub config: ConfigView,
    pub error: Option<Seq<char>>,
    pub segments: Seq<SegmentView>,
    pub summary: SummaryView,
    pub report_md: Option<Seq<char>>,
    pub audio_path: Option<Seq<char>>,
    pub stats: SessionStats,
    pub resumed_at: Option<i64>,
    pub next_id: u64,
}

impl View for Session {
    type V = SessionView;

    open spec fn view(&self) -> SessionView {
        SessionView {
            id: self.id@,
            title: self.title@,
            status: self.status,
            created_at: self.created_at,
            duration: self.duration_ms,
            config: self.config@,
            error: opt_view(self.error),
            segments: segment_views(self.segments@),
            summary: self.summary@,
            report_md: opt_view(self.report_md),
            audio_path: opt_view(self.audio_path),
            stats: self.stats,
            resumed_at: self.resumed_at,
            next_id: self.next_segment_id,
        }
    }
}

/// A session that holds nothing yet.
pub open spec fn blank_session(created_at: i64) -> SessionView {
    SessionView {
        id: Seq::empty(),
        title: Seq::empty(),
        status: SessionStatus::Finished,
        created_at,
        duration: 0,
        config: no_config(),
        error: None,
        segments: Seq::empty(),
        summary: no_summary(),
        report_md: None,
        audio_path: None,
        stats: no_stats(),
        resumed_at: None,
        next_id: 1,
    }
}

// ---------------------------------------------------------------------------
// Transcripts
// ---------------------------------------------------------------------------

/// A segment as a line with its time.
pub open spec fn transcript_line(s: SegmentView) -> Seq<char> {
    "["@ + clock(s.start as int) + "] "@ + s.text + "\n"@
}

/// Whether a segment belongs to a stretch of time: it ends after `from` and
/// begins no later than `to`.
pub open spec fn in_window(s: SegmentView, from: int, to: int) -> bool {
    s.end > from && s.start <= to
}

/// The lines of the segments in a stretch of time; doubtful ones only if wanted.
pub open spec fn transcript(
    segments: Seq<SegmentView>,
    from: int,
    to: int,
    doubtful: bool,
) -> Seq<char>
    decreases segments.len(),
{
    if segments.len() == 0 {
        Seq::empty()
    } else {
        let before = transcript(segments.drop_last(), from, to, doubtful);
        let s = segments.last();
        if in_window(s, from, to) && (doubtful || s.suspect is None) {
            before + transcript_line(s)
        } else {
            before
        }
    }
}

/// The lines of all segments that are not doubtful.
pub open spec fn trusted_transcript(segments: Seq<SegmentView>) -> Seq<char>
    decreases segments.len(),
{
    if segments.len() == 0 {
        Seq::empty()
    } else {
        let before = trusted_transcript(segments.drop_last());
        if segments.last().suspect is None {
            before + transcript_line(segments.last())
        } else {
            before
        }
    }
}

/// The segments that are not doubtful.
pub open spec fn trusted(segments: Seq<SegmentView>) -> Seq<SegmentView>
    decreases segments.len(),
{
    if segments.len() == 0 {
        segments
    } else if segments.last().suspect is None {
        trusted(segments.drop_last()).push(segments.last())
    } else {
        trusted(segments.drop_last())
    }
}

fn line_of(s: &TranscriptSegment) -> (r: String)
    ensures
        r@ == transcript_line(s@),
{
    let mut t = "[".to_owned();
    t.append(format_clock(s.start_ms).as_str());
    t.append("] ");
    t.append(s.text.as_str());
    t.append("\n");
    t
}

fn collect_transcript(
    segments: &Vec<TranscriptSegment>,
    from_ms: i64,
    to_ms: i64,
    doubtful: bool,
) -> (r: String)
    ensures
        r@ == transcript(segment_views(segments@), from_ms as int, to_ms as int, doubtful),
{
    let ghost all = segment_views(segments@);
    let n: usize = segments.len();
    let mut out = String::new();
    let mut i: usize = 0;
    while i < n
        invariant
            i <= n == segments@.len(),
            all == segment_views(segments@),
            out@ == transcript(all.take(i as int), from_ms as int, to_ms as int, doubtful),
        decreases n - i,
    {
        proof {
            assert(all.take(i + 1).drop_last() =~= all.take(i as int));
            assert(all[i as int] == segments@[i as int]@);
        }
        let s = &segments[i];
        if s.end_ms > from_ms && s.start_ms <= to_ms && (doubtful || s.suspect.is_none()) {
            out.append(line_of(s).as_str());
        }
        i += 1;
    }
    proof {
        assert(all.take(n as int) =~= all);
    }
    out
}

// ---------------------------------------------------------------------------
// Segments and their ids
// ---------------------------------------------------------------------------

/// The largest id among some segments, or zero.
pub open spec fn largest_id(segments: Seq<SegmentView>) -> u64
    decreases segments.len(),
{
    if segments.len() == 0 {
        0
    } else {
        let m = largest_id(segments.drop_last());
        if segments.last().id > m {
            segments.last().id
        } else {
            m
        }
    }
}

/// `n + 1`, or the largest number there is.
pub open spec fn successor(n: u64) -> u64 {
    if n == u64::MAX {
        n
    } else {
        (n + 1) as u64
    }
}

fn succ(n: u64) -> (r: u64)
    ensures
        r == successor(n),
{
    if n == u64::MAX {
        n
    } else {
        n + 1
    }
}

/// Total number of characters of some segments.
pub open spec fn total_chars(segments: Seq<SegmentView>) -> int
    decreases segments.len(),
{
    if segments.len() == 0 {
        0
    } else {
        total_chars(segments.drop_last()) + segments.last().text.len()
    }
}

impl SessionView {
    /// The id that the next segment gets.
    pub open spec fn upcoming_id(self) -> u64 {
        if self.next_id == 0 {
            successor(largest_id(self.segments))
        } else {
            self.next_id
        }
    }

    /// The session with a segment at its end; one without an id gets the next.
    pub open spec fn with_segment(self, s: SegmentView) -> SessionView {
        let segment = SegmentView {
            id: if s.id == 0 {
                self.upcoming_id()
            } else {
                s.id
            },
            ..s
        };
        SessionView {
            segments: self.segments.push(segment),
            stats: SessionStats {
                segments: (self.segments.len() + 1) as i64,
                chars: (self.stats.chars + s.text.len()) as i64,
                ..self.stats
            },
            next_id: if s.id == 0 {
                successor(self.upcoming_id())
            } else {
                self.next_id
            },
            ..self
        }
    }

    pub open spec fn last_end(self) -> i64 {
        if self.segments.len() == 0 {
            0
        } else {
            self.segments.last().end
        }
    }

    /// Whether the figures agree with the segments.
    pub open spec fn counted(self) -> bool {
        self.stats.chars == total_chars(self.segments) && self.stats.segments
            == self.segments.len()
    }

    /// Whether every id is below the next one.
    pub open spec fn ids_in_order(self) -> bool {
        &&& self.next_id > 0
        &&& forall|i: int| 0 <= i < self.segments.len() ==> (#[trigger] self.segments[i]).id < self.next_id
        &&& forall|i: int, j: int|
            0 <= i < j < self.segments.len() ==> (#[trigger] self.segments[i]).id < (
            #[trigger] self.segments[j]).id
    }

    /// Duration of the recording at time `now`.
    pub open spec fn duration_at(self, now: int) -> int {
        match (self.status, self.resumed_at) {
            (SessionStatus::Recording, Some(t)) => if now > t {
                self.duration + (now - t)
            } else {
                self.duration as int
            },
            _ => self.duration as int,
        }
    }

    /// Where the recent past begins at time `now` of the session.
    pub open spec fn recent_from(self, now: int, window_secs: int) -> int {
        let from = if now - window_secs * 1000 > 0 {
            now - window_secs * 1000
        } else {
            0
        };
        if from < self.last_end() {
            from
        } else {
            self.last_end() as int
        }
    }

    /// A session found on disk: it is not being recorded any more, and the next
    /// id must be found.
    pub open spec fn restored(self) -> SessionView {
        SessionView {
            status: match self.status {
                SessionStatus::Recording => SessionStatus::Finished,
                SessionStatus::Paused => SessionStatus::Finished,
                other => other,
            },
            resumed_at: None,
            next_id: 0,
            ..self
        }
    }

    /// The session after recording ended at time `now`.
    pub open spec fn stopped(self, now: int) -> SessionView {
        SessionView {
            status: SessionStatus::Finished,
            duration: match self.resumed_at {
                Some(t) => if now > t {
                    (self.duration + (now - t)) as i64
                } else {
                    self.duration
                },
                None => self.duration,
            },
            resumed_at: None,
            ..self
        }
    }
}

impl Session {
    /// A session that holds nothing yet.
    pub fn blank(created_at: i64) -> (r: Session)
        ensures
            r@ == blank_session(created_at),
    {
        let r = Session {
            id: String::new(),
            title: String::new(),
            status: SessionStatus::Finished,
            created_at,
            duration_ms: 0,
            config: SessionConfig::default(),
            error: None,
            segments: Vec::new(),
            summary: SummaryState::default(),
            report_md: None,
            audio_path: None,
            stats: SessionStats::default(),
            resumed_at: None,
            next_segment_id: 1,
        };
        proof {
            assert(r@.segments =~= Seq::empty());
        }
        r
    }

    /// A session with this id whose recording begins at time `now`.
    pub fn create(id: String, title: String, config: SessionConfig, now: i64) -> (r: Session)
        ensures
            r@ == (SessionView {
                id: id@,
                title: title@,
                status: SessionStatus::Recording,
                config: config@,
                resumed_at: Some(now),
                ..blank_session(now)
            }),
    {
        let mut s = Session::blank(now);
        s.id = id;
        s.title = title;
        s.status = SessionStatus::Recording;
        s.config = config;
        s.resumed_at = Some(now);
        s
    }

    /// A session whose recording begins now, with an id under which it can be
    /// stored.
    pub fn new(title: String, config: SessionConfig) -> (r: Session)
        ensures
            valid_session_id(r@.id),
            exists|now: i64|
                r@ == (SessionView {
                    id: r@.id,
                    title: title@,
                    status: SessionStatus::Recording,
                    config: config@,
                    resumed_at: Some(now),
                    ..#[trigger] blank_session(now)
                }),
    {
        let id = fresh_uuid();
        let ghost iv = id@;
        let now: i64 = now_ms();
        let r = Session::create(id, title, config, now);
        proof {
            assert(valid_session_id(iv)) by {
                assert forall|i: int| 0 <= i < iv.len() implies id_char(#[trigger] iv[i]) by {
                    assert(hex_digit(iv[i]) || iv[i] == '-');
                }
                lemma_ascii_bytes(iv);
            }
            assert(r@ == (SessionView {
                id: r@.id,
                title: title@,
                status: SessionStatus::Recording,
                config: config@,
                resumed_at: Some(now),
                ..blank_session(now)
            }));
        }
        r
    }

    /// Duration of the recording, the current stretch included.
    pub fn live_duration_ms(&self, now: i64) -> (r: i64)
        requires
            self@.resumed_at matches Some(t) ==> now - t <= i64::MAX,
            self@.duration_at(now as int) <= i64::MAX,
        ensures
            r == self@.duration_at(now as int),
    {
        match (self.status, self.resumed_at) {
            (SessionStatus::Recording, Some(t)) => if now > t {
                self.duration_ms + (now - t)
            } else {
                self.duration_ms
            },
            _ => self.duration_ms,
        }
    }

    /// Where the last segment ends.
    pub fn last_segment_end_ms(&self) -> (r: i64)
        ensures
            r == self@.last_end(),
    {
        let n: usize = self.segments.len();
        if n == 0 {
            0
        } else {
            proof {
                assert(self@.segments.last() == self.segments@[n - 1]@);
            }
            self.segments[n - 1].end_ms
        }
    }

    fn max_id(&self) -> (r: u64)
        ensures
            r == largest_id(self@.segments),
    {
        let ghost all = self@.segments;
        let n: usize = self.segments.len();
        let mut m: u64 = 0;
        let mut i: usize = 0;
        while i < n
            invariant
                i <= n == self.segments@.len(),
                all == segment_views(self.segments@),
                m == largest_id(all.take(i as int)),
            decreases n - i,
        {
            proof {
                assert(all.take(i + 1).drop_last() =~= all.take(i as int));
                assert(all[i as int] == self.segments@[i as int]@);
            }
            if self.segments[i].id > m {
                m = self.segments[i].id;
            }
            i += 1;
        }
        proof {
            assert(all.take(n as int) =~= all);
        }
        m
    }

    /// The next id.
    pub fn next_id(&mut self) -> (r: u64)
        ensures
            r == old(self)@.upcoming_id(),
            final(self)@ == (SessionView {
                next_id: successor(old(self)@.upcoming_id()),
                ..old(self)@
            }),
    {
        if self.next_segment_id == 0 {
            let m: u64 = self.max_id();
            self.next_segment_id = succ(m);
        }
        let id: u64 = self.next_segment_id;
        self.next_segment_id = succ(id);
        id
    }

    /// Adds a segment and returns its id. The duration of speech is kept where
    /// speech is cut into utterances, and not changed here.
    pub fn push_segment(&mut self, segment: TranscriptSegment) -> (r: u64)
        requires
            old(self)@.segments.len() < i64::MAX,
            old(self)@.stats.chars + segment@.text.len() <= i64::MAX,
        ensures
            final(self)@ == old(self)@.with_segment(segment@),
            r == final(self)@.segments.last().id,
    {
        let ghost before = self@;
        let ghost given = segment@;
        let mut segment = segment;
        if segment.id == 0 {
            segment.id = self.next_id();
        }
        let n: usize = self.segments.len();
        self.stats.segments = n as i64 + 1;
        let chars: usize = segment.text.as_str().unicode_len();
        self.stats.chars = (self.stats.chars as i128 + chars as i128) as i64;
        let id: u64 = segment.id;
        let ghost sv = segment@;
        self.segments.push(segment);
        proof {
            assert(self@.segments =~= before.segments.push(sv));
            assert(self@.stats.segments == before.segments.len() + 1);
            assert(self@ =~= before.with_segment(given));
        }
        id
    }

    /// What was said lately at time `now` of the session, for the language model.
    pub fn recent_transcript(&self, now: i64, window_secs: u32) -> (r: String)
        ensures
            r@ == transcript(
                self@.segments,
                self@.recent_from(now as int, window_secs as int),
                self@.last_end() as int,
                false,
            ),
    {
        let window: i64 = window_secs as i64 * 1000;
        let mut from: i64 = if now > window {
            now - window
        } else {
            0
        };
        let end: i64 = self.last_segment_end_ms();
        if from > end {
            from = end;
        }
        collect_transcript(&self.segments, from, end, false)
    }

    /// What was said in a stretch of time.
    pub fn transcript_between(&self, from_ms: i64, to_ms: i64) -> (r: String)
        ensures
            r@ == transcript(self@.segments, from_ms as int, to_ms as int, true),
    {
        collect_transcript(&self.segments, from_ms, to_ms, true)
    }

    /// What was said in a stretch of time but for doubtful segments, for the
    /// language model.
    pub fn transcript_between_trusted(&self, from_ms: i64, to_ms: i64) -> (r: String)
        ensures
            r@ == transcript(self@.segments, from_ms as int, to_ms as int, false),
    {
        collect_transcript(&self.segments, from_ms, to_ms, false)
    }

    /// All that was said but for doubtful segments; where it is too long, its
    /// beginning and end.
    pub fn full_transcript(&self, max_chars: usize) -> (r: String)
        ensures
            r@ == middle_truncated(
                trimmed(trusted_transcript(self@.segments)),
                max_chars as int,
            ),
    {
        let ghost all = self@.segments;
        let n: usize = self.segments.len();
        let mut out = String::new();
        let mut i: usize = 0;
        while i < n
            invariant
                i <= n == self.segments@.len(),
                all == segment_views(self.segments@),
                out@ == trusted_transcript(all.take(i as int)),
            decreases n - i,
        {
            proof {
                assert(all.take(i + 1).drop_last() =~= all.take(i as int));
                assert(all[i as int] == self.segments@[i as int]@);
            }
            if self.segments[i].suspect.is_none() {
                out.append(line_of(&self.segments[i]).as_str());
            }
            i += 1;
        }
        proof {
            assert(all.take(n as int) =~= all);
        }
        truncate_middle(trim(out.as_str()), max_chars)
    }

    pub fn info(&self, now: i64) -> (r: SessionInfo)
        requires
            self@.resumed_at matches Some(t) ==> now - t <= i64::MAX,
            self@.duration_at(now as int) <= i64::MAX,
        ensures
            r.id@ == self@.id,
            r.title@ == self@.title,
            r.status == self@.status,
            r.created_at == self@.created_at,
            r.duration_ms == self@.duration_at(now as int),
            r.config@ == self@.config,
            opt_view(r.error) == self@.error,
    {
        SessionInfo {
            id: self.id.clone(),
            title: self.title.clone(),
            status: self.status,
            created_at: self.created_at,
            duration_ms: self.live_duration_ms(now),
            config: self.config.duplicate(),
            error: copy_opt(&self.error),
        }
    }

    pub fn detail(&self, now: i64) -> (r: SessionDetail)
        requires
            self@.resumed_at matches Some(t) ==> now - t <= i64::MAX,
            self@.duration_at(now as int) <= i64::MAX,
        ensures
            r.id@ == self@.id,
            r.title@ == self@.title,
            r.status == self@.status,
            r.created_at == self@.created_at,
            r.duration_ms == self@.duration_at(now as int),
            r.config@ == self@.config,
            opt_view(r.error) == self@.error,
            segment_views(r.segments@) == self@.segments,
            r.summary@ == self@.summary,
            opt_view(r.report_md) == self@.report_md,
            opt_view(r.audio_path) == self@.audio_path,
            r.stats == self@.stats,
    {
        SessionDetail {
            id: self.id.clone(),
            title: self.title.clone(),
            status: self.status,
            created_at: self.created_at,
            duration_ms: self.live_duration_ms(now),
            config: self.config.duplicate(),
            error: copy_opt(&self.error),
            segments: self.copy_segments(),
            summary: self.summary.duplicate(),
            report_md: copy_opt(&self.report_md),
            audio_path: copy_opt(&self.audio_path),
            stats: self.stats,
        }
    }

    fn copy_segments(&self) -> (r: Vec<TranscriptSegment>)
        ensures
            segment_views(r@) == self@.segments,
    {
        let n: usize = self.segments.len();
        let mut out: Vec<TranscriptSegment> = Vec::new();
        let mut i: usize = 0;
        while i < n
            invariant
                i <= n == self.segments@.len(),
                out@.len() == i,
                forall|k: int| 0 <= k < i ==> (#[trigger] out@[k])@ == self.segments@[k]@,
            decreases n - i,
        {
            out.push(self.segments[i].duplicate());
            i += 1;
        }
        proof {
            assert(segment_views(out@) =~= self@.segments);
        }
        out
    }

    pub fn list_item(&self) -> (r: SessionListItem)
        ensures
            r@ == (ListItemView {
                id: self@.id,
                title: self@.title,
                status: self@.status,
                created_at: self@.created_at,
                duration: self@.duration,
                segments: self@.segments.len(),
                chars: self@.stats.chars,
                has_summary: self@.summary.revision != 0,
                audio_path: self@.audio_path,
            }),
    {
        SessionListItem {
            id: self.id.clone(),
            title: self.title.clone(),
            status: self.status,
            created_at: self.created_at,
            duration_ms: self.duration_ms,
            segments: self.segments.len(),
            chars: self.stats.chars,
            has_summary: !self.summary.is_empty(),
            audio_path: copy_opt(&self.audio_path),
        }
    }

    /// Puts a session that was found on disk into the state it has now.
    pub fn restore(&mut self)
        ensures
            final(self)@ == old(self)@.restored(),
    {
        self.status = match self.status {
            SessionStatus::Recording => SessionStatus::Finished,
            SessionStatus::Paused => SessionStatus::Finished,
            SessionStatus::Finished => SessionStatus::Finished,
            SessionStatus::Error => SessionStatus::Error,
        };
        self.resumed_at = None;
        self.next_segment_id = 0;
    }

    /// Ends the recording at time `now`.
    pub fn stop(&mut self, now: i64)
        requires
            old(self)@.resumed_at matches Some(t) ==> now - t <= i64::MAX && (now > t
                ==> old(self)@.duration + (now - t) <= i64::MAX),
        ensures
            final(self)@ == old(self)@.stopped(now as int),
    {
        self.status = SessionStatus::Finished;
        if let Some(t) = self.resumed_at {
            if now > t {
                self.duration_ms = self.duration_ms + (now - t);
            }
        }
        self.resumed_at = None;
    }
}

impl Default for Session {
    fn default() -> (r: Session)
        ensures
            exists|now: i64| r@ == #[trigger] blank_session(now),
    {
        Session::blank(now_ms())
    }
}

// ---------------------------------------------------------------------------
// Laws
// ---------------------------------------------------------------------------

/// Segments that come in without an id get ids in ascending order.
pub proof fn law_segment_ids_ascend(v: SessionView, s: SegmentView)
    requires
        v.ids_in_order(),
        s.id == 0,
        v.next_id < u64::MAX,
    ensures
        v.with_segment(s).ids_in_order(),
        v.with_segment(s).segments.last().id == v.next_id,
{
}

proof fn lemma_largest_id(segments: Seq<SegmentView>)
    ensures
        forall|i: int| 0 <= i < segments.len() ==> (#[trigger] segments[i]).id <= largest_id(segments),
    decreases segments.len(),
{
    if segments.len() > 0 {
        lemma_largest_id(segments.drop_last());
        assert forall|i: int| 0 <= i < segments.len() implies (#[trigger] segments[i]).id
            <= largest_id(segments) by {
            if i < segments.len() - 1 {
                assert(segments.drop_last()[i] == segments[i]);
            }
        }
    }
}

/// Also after a session was found on disk, the next id is larger than any before.
pub proof fn law_restored_session_goes_on_counting(v: SessionView, i: int)
    requires
        0 <= i < v.segments.len(),
        largest_id(v.segments) < u64::MAX,
    ensures
        v.restored().upcoming_id() > v.segments[i].id,
{
    lemma_largest_id(v.segments);
}

/// The figures keep in step with the segments.
pub proof fn law_stats_count_segments(v: SessionView, s: SegmentView)
    requires
        v.counted(),
        v.segments.len() < i64::MAX,
        v.stats.chars + s.text.len() <= i64::MAX,
    ensures
        v.with_segment(s).counted(),
        v.with_segment(s).stats.speech_ms == v.stats.speech_ms,
{
    let r = v.with_segment(s);
    assert(r.segments.drop_last() =~= v.segments);
}

/// Adding a segment keeps all earlier ones, doubtful or not.
pub proof fn law_segments_are_never_lost(v: SessionView, s: SegmentView, i: int)
    requires
        0 <= i < v.segments.len(),
    ensures
        v.with_segment(s).segments[i] == v.segments[i],
        v.with_segment(s).segments.last().text == s.text,
        v.with_segment(s).segments.last().suspect == s.suspect,
{
}

/// Doubtful segments do not get into what the language model reads: it is the
/// same as if they were not there.
pub proof fn law_doubtful_segments_stay_out_of_minutes(
    segments: Seq<SegmentView>,
    from: int,
    to: int,
)
    ensures
        transcript(segments, from, to, false) == transcript(trusted(segments), from, to, true),
        trusted_transcript(segments) == trusted_transcript(trusted(segments)),
    decreases segments.len(),
{
    if segments.len() > 0 {
        law_doubtful_segments_stay_out_of_minutes(segments.drop_last(), from, to);
        let t = trusted(segments.drop_last());
        if segments.last().suspect is None {
            assert(t.push(segments.last()).drop_last() =~= t);
        }
    }
}

/// Two successive stretches of time hold each segment once: a segment that ends
/// with or before the first stretch is not in the second, and one that is in
/// neither is outside both.
pub proof fn law_windows_neither_repeat_nor_skip(s: SegmentView, from: int, mid: int, to: int)
    requires
        from <= mid <= to,
        s.start < s.end,
    ensures
        s.end <= mid ==> !in_window(s, mid, to),
        from < s.end <= to ==> in_window(s, from, mid) || in_window(s, mid, to),
        in_window(s, from, mid) && in_window(s, mid, to) ==> s.start <= mid < s.end,
{
}

/// Segments follow one another in time.
pub open spec fn in_time_order(segments: Seq<SegmentView>) -> bool {
    &&& forall|i: int| 0 <= i < segments.len() ==> 0 <= (#[trigger] segments[i]).start < segments[i].end
    &&& forall|i: int, j: int|
        0 <= i < j < segments.len() ==> (#[trigger] segments[i]).end <= (#[trigger] segments[j]).start
}

/// An update of the minutes that goes on where segment `k` ended covers exactly
/// the segments after it: none twice, and none left out.
pub proof fn law_updates_cover_each_segment_once(segments: Seq<SegmentView>, k: int, i: int)
    requires
        in_time_order(segments),
        -1 <= k < segments.len(),
        0 <= i < segments.len(),
    ensures
        ({
            let covered = if k < 0 {
                0
            } else {
                segments[k].end as int
            };
            in_window(segments[i], covered, segments.last().end as int) == (i > k)
        }),
{
    let last = segments.len() - 1;
    if i < last {
        assert(segments[i].end <= segments[last].start);
    }
    if k >= 0 && i < k {
        assert(segments[i].end <= segments[k].start);
    }
    if k >= 0 && i > k {
        assert(segments[k].end <= segments[i].start);
    }
}

/// A segment as a line: when it begins, and what was said.
pub open spec fn spoken_line(s: SegmentView) -> Seq<char> {
    "["@ + clock(s.start as int) + "] "@ + s.text + "\n"@
}

/// A transcript is made of the lines of exactly those segments that reach into the
/// stretch of time, in order, and without doubtful ones unless those are wanted.
pub proof fn law_transcript_is_the_lines_of_its_segments(
    segments: Seq<SegmentView>,
    from: int,
    to: int,
    doubtful: bool,
)
    ensures
        transcript(segments, from, to, doubtful) == segments.filter(
            |s: SegmentView| s.end > from && s.start <= to && (doubtful || s.suspect is None),
        ).map_values(|s: SegmentView| spoken_line(s)).flatten_alt(),
    decreases segments.len(),
{
    reveal(Seq::filter);
    let p = |s: SegmentView| s.end > from && s.start <= to && (doubtful || s.suspect is None);
    let f = |s: SegmentView| spoken_line(s);
    if segments.len() > 0 {
        let head = segments.drop_last();
        law_transcript_is_the_lines_of_its_segments(head, from, to, doubtful);
        if p(segments.last()) {
            let all = head.filter(p).push(segments.last());
            assert(segments.filter(p) == all);
            assert(all.map_values(f).drop_last() =~= head.filter(p).map_values(f));
            assert(all.map_values(f).last() == spoken_line(segments.last()));
        }
    } else {
        assert(segments.filter(p).map_values(f).flatten_alt() =~= Seq::<char>::empty());
    }
}

/// What a report is made of: the lines of all segments that are not doubtful, in
/// order.
pub proof fn law_trusted_transcript_is_all_that_is_trusted(segments: Seq<SegmentView>)
    ensures
        trusted(segments) == segments.filter(|s: SegmentView| s.suspect is None),
        trusted_transcript(segments) == segments.filter(
            |s: SegmentView| s.suspect is None,
        ).map_values(|s: SegmentView| spoken_line(s)).flatten_alt(),
    decreases segments.len(),
{
    reveal(Seq::filter);
    let p = |s: SegmentView| s.suspect is None;
    let f = |s: SegmentView| spoken_line(s);
    if segments.len() > 0 {
        let head = segments.drop_last();
        law_trusted_transcript_is_all_that_is_trusted(head);
        if p(segments.last()) {
            let all = head.filter(p).push(segments.last());
            assert(segments.filter(p) == all);
            assert(all.map_values(f).drop_last() =~= head.filter(p).map_values(f));
            assert(all.map_values(f).last() == spoken_line(segments.last()));
        }
    } else {
        assert(segments.filter(p).map_values(f).flatten_alt() =~= Seq::<char>::empty());
    }
}

/// The recent past reaches back by the seconds asked for, or to the end of what was
/// said if nothing was said since.
pub proof fn law_recent_past_is_as_long_as_asked(v: SessionView, now: int, window_secs: int)
    requires
        0 <= window_secs,
        0 <= v.last_end(),
    ensures
        0 <= v.recent_from(now, window_secs),
        v.last_end() >= now - 1000 * window_secs && now >= 1000 * window_secs ==> v.recent_from(
            now,
            window_secs,
        ) == now - 1000 * window_secs,
        now <= 1000 * window_secs ==> v.recent_from(now, window_secs) == 0,
        v.last_end() < now - 1000 * window_secs ==> v.recent_from(now, window_secs)
            == v.last_end(),
{
}

/// A segment is added as it is, at the end, and nothing but the segments and their
/// figures changes.
pub proof fn law_adding_a_segment_changes_nothing_else(v: SessionView, s: SegmentView)
    ensures
        ({
            let r = v.with_segment(s);
            &&& r.segments.len() == v.segments.len() + 1
            &&& r.segments.drop_last() == v.segments
            &&& r.segments.last().text == s.text && r.segments.last().start == s.start
                && r.segments.last().end == s.end && r.segments.last().confidence == s.confidence
                && r.segments.last().suspect == s.suspect
            &&& s.id != 0 ==> r.segments.last().id == s.id
            &&& r.id == v.id && r.title == v.title && r.status == v.status
            &&& r.created_at == v.created_at && r.duration == v.duration && r.config == v.config
            &&& r.error == v.error && r.summary == v.summary && r.report_md == v.report_md
            &&& r.audio_path == v.audio_path && r.resumed_at == v.resumed_at
            &&& r.stats.speech_ms == v.stats.speech_ms && r.stats.audio_ms == v.stats.audio_ms
            &&& v.segments.len() < i64::MAX ==> r.stats.segments == v.segments.len() + 1
            &&& i64::MIN <= v.stats.chars + s.text.len() <= i64::MAX ==> r.stats.chars
                == v.stats.chars + s.text.len()
        }),
{
    assert(v.with_segment(s).segments.drop_last() =~= v.segments);
}

/// A session that is found on disk is all there: only that it is not being recorded
/// any more.
pub proof fn law_restoring_loses_nothing(v: SessionView)
    ensures
        ({
            let r = v.restored();
            &&& r.segments == v.segments && r.summary == v.summary && r.report_md == v.report_md
            &&& r.id == v.id && r.title == v.title && r.created_at == v.created_at
            &&& r.duration == v.duration && r.config == v.config && r.stats == v.stats
            &&& r.audio_path == v.audio_path && r.error == v.error
            &&& r.status != SessionStatus::Recording && r.status != SessionStatus::Paused
            &&& v.status == SessionStatus::Error ==> r.status == SessionStatus::Error
            &&& r.resumed_at is None
        }),
{
}

/// The time of a recording is what it was up to the last resumption, and while it is
/// recorded the time since then; ending it keeps that time, and everything else.
pub proof fn law_duration_counts_recorded_time(v: SessionView, now: int)
    ensures
        v.status != SessionStatus::Recording ==> v.duration_at(now) == v.duration,
        v.status == SessionStatus::Recording ==> (v.resumed_at matches Some(t) ==> now >= t
            ==> v.duration_at(now) == v.duration + (now - t)),
        v.duration_at(now) >= v.duration,
        v.status == SessionStatus::Recording && i64::MIN <= v.duration_at(now) <= i64::MAX
            ==> v.stopped(now).duration == v.duration_at(now),
        v.stopped(now).status == SessionStatus::Finished,
        v.stopped(now).resumed_at is None,
        v.stopped(now).segments == v.segments && v.stopped(now).summary == v.summary,
        v.stopped(now).title == v.title && v.stopped(now).id == v.id,
{
}

// ---------------------------------------------------------------------------
// Storage
// ---------------------------------------------------------------------------

/// A character that may stand in the id of a session.
pub open spec fn id_char(c: char) -> bool {
    ascii_alphanumeric(c) || c == '-'
}

/// Ids under which a session can be stored: they name a file and nothing else.
pub open spec fn valid_session_id(id: Seq<char>) -> bool {
    &&& id.len() > 0
    &&& vstd::utf8::encode_utf8(id).len() <= 64
    &&& forall|i: int| 0 <= i < id.len() ==> id_char(#[trigger] id[i])
}

proof fn lemma_ascii_bytes(s: Seq<char>)
    requires
        forall|i: int| 0 <= i < s.len() ==> id_char(#[trigger] s[i]),
    ensures
        vstd::utf8::encode_utf8(s).len() == s.len(),
{
    assert(vstd::utf8::is_ascii_chars(s)) by {
        assert forall|i: int| 0 <= i < s.len() implies '\0' <= #[trigger] s[i] <= '\u{7f}' by {
            assert(id_char(s[i]));
            vstd::utf8::char_u32_cast(s[i], s[i] as u32);
        }
    }
    vstd::utf8::is_ascii_chars_encode_utf8(s);
}

/// The name of the file in which a session is stored.
pub fn session_file_name(id: &str) -> (r: AppResult<String>)
    ensures
        match r {
            Ok(name) => valid_session_id(id@) && name@ == id@ + ".json"@,
            Err(e) => !valid_session_id(id@) && e@ == ErrorView::Session("非法的会话 id："@ + id@),
        },
{
    let v = to_chars(id);
    let n: usize = v.len();
    let mut ok: bool = n > 0 && id.as_bytes().len() <= 64;
    let mut i: usize = 0;
    while i < n
        invariant
            i <= n == v@.len(),
            v@ == id@,
            ok == (n > 0 && vstd::utf8::encode_utf8(id@).len() <= 64 && forall|k: int|
                0 <= k < i ==> id_char(#[trigger] id@[k])),
        decreases n - i,
    {
        let c = v[i];
        if !(is_ascii_alphanumeric(c) || c == '-') {
            assert(!id_char(id@[i as int]));
            ok = false;
        }
        i += 1;
    }
    if !ok {
        let mut m = "非法的会话 id：".to_owned();
        m.append(id);
        return Err(AppError::Session(m));
    }
    let mut name = id.to_owned();
    name.append(".json");
    Ok(name)
}

/// No id under which a session is stored leads out of the directory.
pub proof fn law_stored_ids_name_one_file(id: Seq<char>, i: int)
    requires
        valid_session_id(id),
        0 <= i < id.len(),
    ensures
        id[i] != '/',
        id[i] != '\\',
        id[i] != '.',
        id[i] != ':',
{
}

/// The newest session comes first.
pub open spec fn newest_first(v: Seq<ListItemView>) -> bool {
    forall|i: int, j: int|
        0 <= i < j < v.len() ==> (#[trigger] v[i]).created_at >= (#[trigger] v[j]).created_at
}

/// Sorts a list of sessions, the newest first.
pub fn sort_by_time(items: Vec<SessionListItem>) -> (r: Vec<SessionListItem>)
    ensures
        newest_first(list_views(r@)),
        list_views(r@).to_multiset() == list_views(items@).to_multiset(),
{
    let ghost all = list_views(items@);
    let mut out: Vec<SessionListItem> = Vec::new();
    let ghost mut i: int = 0;
    proof {
        assert(list_views(out@) =~= all.take(0));
    }
    for item in it: items
        invariant
            all == list_views(it.seq()),
            0 <= i == it.index() <= all.len(),
            newest_first(list_views(out@)),
            list_views(out@).to_multiset() == all.take(i).to_multiset(),
        decreases all.len() - i,
    {
        let ghost before = list_views(out@);
        let ghost iv = item@;
        let n: usize = out.len();
        let mut k: usize = 0;
        while k < n && out[k].created_at >= item.created_at
            invariant
                k <= n == out@.len(),
                before == list_views(out@),
                iv == item@,
                forall|j: int|
                    0 <= j < k ==> (#[trigger] before[j]).created_at >= iv.created_at,
            ensures
                k <= n,
                forall|j: int|
                    0 <= j < k ==> (#[trigger] before[j]).created_at >= iv.created_at,
                k < n ==> before[k as int].created_at < iv.created_at,
            decreases n - k,
        {
            proof {
                assert(before[k as int] == out@[k as int]@);
            }
            k += 1;
        }
        proof {
            if k < n {
                assert(before[k as int] == out@[k as int]@);
            }
        }
        out.insert(k, item);
        proof {
            let after = list_views(out@);
            assert(after =~= before.insert(k as int, iv));
            assert forall|a: int, b: int| 0 <= a < b < after.len() implies (
            #[trigger] after[a]).created_at >= (#[trigger] after[b]).created_at by {
                if a < k && b < k {
                    assert(before[a].created_at >= before[b].created_at);
                } else if a < k && b > k {
                    assert(before[a].created_at >= before[b - 1].created_at);
                } else if a == k {
                    assert(before[k as int].created_at >= before[b - 1].created_at || b - 1 == k);
                } else if a > k {
                    assert(before[a - 1].created_at >= before[b - 1].created_at);
                }
            }
            vstd::seq_lib::to_multiset_insert(before, k as int, iv);
            assert(all.take(i + 1) =~= all.take(i).push(all[i]));
            assert(all[i] == iv);
            vstd::seq_lib::to_multiset_build(all.take(i), iv);
            assert(after.to_multiset() =~= all.take(i + 1).to_multiset());
            i = i + 1;
        }
    }
    proof {
        assert(all.take(i) =~= all);
    }
    out
}

/// What [`Session::push_segment`] leaves behind: the segment at the end, as it was
/// given, and everything that was there before.
pub proof fn law_pushed_segments_stay(session: &mut Session, segment: TranscriptSegment, r: u64, i: int)
    requires
        call_ensures(Session::push_segment, (session, segment), r),
        0 <= i < old(session).segments@.len(),
        old(session).segments@.len() < i64::MAX,
        i64::MIN <= old(session).stats.chars + segment.text@.len() <= i64::MAX,
    ensures
        final(session).segments@.len() == old(session).segments@.len() + 1,
        final(session).segments@[i]@ == old(session).segments@[i]@,
        final(session).segments@.last().text@ == segment.text@,
        final(session).segments@.last().start_ms == segment.start_ms,
        final(session).segments@.last().end_ms == segment.end_ms,
        final(session).segments@.last().id == r,
        segment.id != 0 ==> r == segment.id,
        final(session).stats.chars == old(session).stats.chars + segment.text@.len(),
        final(session).title@ == old(session).title@,
        final(session).summary@ == old(session).summary@,
{
    let a = old(session)@;
    let b = final(session)@;
    let n = old(session).segments@.len() as int;
    law_adding_a_segment_changes_nothing_else(a, segment@);
    assert(b.segments.len() == final(session).segments@.len());
    assert(a.segments.len() == n);
    assert(b.segments[i] == final(session).segments@[i]@);
    assert(a.segments[i] == old(session).segments@[i]@);
    assert(b.segments.drop_last()[i] == b.segments[i]);
    assert(b.segments[n] == final(session).segments@[n]@);
}

/// What [`Session::transcript_between_trusted`] and [`Session::full_transcript`] write:
/// every trusted segment that belongs there, in order, with its time.
pub proof fn law_transcripts_hold_what_was_said(
    session: &Session,
    from: i64,
    to: i64,
    part: String,
    max: usize,
    whole: String,
)
    requires
        call_ensures(Session::transcript_between_trusted, (session, from, to), part),
        call_ensures(Session::full_transcript, (session, max), whole),
    ensures
        part@ == transcript(session@.segments, from as int, to as int, false),
        ({
            let doubtful = false;
            let lo = from as int;
            let hi = to as int;
            part@ == session@.segments.filter(
                |s: SegmentView| s.end > lo && s.start <= hi && (doubtful || s.suspect is None),
            ).map_values(|s: SegmentView| spoken_line(s)).flatten_alt()
        }),
        trimmed(trusted_transcript(session@.segments)).len() <= max ==> whole@ == trimmed(
            session@.segments.filter(|s: SegmentView| s.suspect is None).map_values(
                |s: SegmentView| spoken_line(s),
            ).flatten_alt(),
        ),
{
    law_transcript_is_the_lines_of_its_segments(
        session@.segments,
        from as int,
        to as int,
        false,
    );
    law_trusted_transcript_is_all_that_is_trusted(session@.segments);
}

/// What is shown of a session is what the session holds.
pub proof fn law_sessions_are_shown_as_they_are(
    session: &Session,
    now: i64,
    item: SessionListItem,
    info: SessionInfo,
    detail: SessionDetail,
    i: int,
)
    requires
        call_ensures(Session::list_item, (session,), item),
        call_ensures(Session::info, (session, now), info),
        call_ensures(Session::detail, (session, now), detail),
        0 <= i,
    ensures
        item.id@ == session.id@ && item.title@ == session.title@,
        item.created_at == session.created_at && item.status == session.status,
        item.duration_ms == session.duration_ms && item.chars == session.stats.chars,
        item.segments == session.segments@.len(),
        item.has_summary == (session.summary.revision != 0),
        info.id@ == session.id@ && info.title@ == session.title@,
        info.created_at == session.created_at && info.status == session.status,
        session.status != SessionStatus::Recording ==> info.duration_ms == session.duration_ms,
        detail.id@ == session.id@ && detail.title@ == session.title@,
        detail.segments@.len() == session.segments@.len(),
        i < session.segments@.len() ==> detail.segments@[i]@ == session.segments@[i]@,
        detail.summary@ == session.summary@ && detail.stats == session.stats,
        opt_view(detail.report_md) == opt_view(session.report_md),
{
    assert(segment_views(detail.segments@).len() == detail.segments@.len());
    assert(session@.segments.len() == session.segments@.len());
    if i < session.segments@.len() {
        assert(segment_views(detail.segments@)[i] == detail.segments@[i]@);
        assert(session@.segments[i] == session.segments@[i]@);
    }
    assert(item@.id == item.id@);
    assert(item@.segments == item.segments);
}

/// A new session is being recorded from now on, under the title and with the sources
/// it was made for, and holds nothing yet.
pub proof fn law_new_sessions_are_empty(
    id: String,
    title: String,
    config: SessionConfig,
    now: i64,
    r: Session,
)
    requires
        call_ensures(Session::create, (id, title, config, now), r),
    ensures
        r.id@ == id@ && r.title@ == title@ && r.config@ == config@,
        r.status == SessionStatus::Recording && r.resumed_at == Some(now),
        r.created_at == now && r.duration_ms == 0,
        r.segments@.len() == 0 && r.summary.revision == 0 && r.report_md is None,
{
    assert(r@.segments.len() == r.segments@.len());
    assert(r@.summary.revision == r.summary.revision);
    assert(r@.report_md == opt_view(r.report_md));
}

} // verus!
