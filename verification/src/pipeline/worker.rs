//! Recognition of utterances: which jobs are worth a request, and what becomes of
//! the replies.
//!
//! Requests are made elsewhere; the worker says what to ask and takes the
//! answer. A reply is never thrown away: a doubtful text is shown, marked, and
//! kept out of the minutes.

use vstd::prelude::*;
use vstd::string::*;
use crate::audio::capture::SourceKind;
use crate::asr::client::AsrOutcome;
use crate::asr::client::TranscribeRequest;
use crate::asr::filter::clean_text;
use crate::asr::filter::cleaned;
use crate::asr::filter::doubt;
use crate::asr::filter::suspect_reason;
use crate::asr::hypothesis::HypothesisBuffer;
use crate::asr::hypothesis::TokenView;
use crate::asr::hypothesis::committed_part;
use crate::asr::hypothesis::tentative_part;
use crate::asr::hypothesis::tokens;
use crate::error::AppResult;
use crate::events::AppEvent;
use crate::events::AsrPartialEvent;
use crate::events::AsrSegmentEvent;
use crate::events::AsrStateKind;
use crate::events::EventView;
use crate::events::cleared_event;
use crate::events::error_event;
use crate::events::event_views;
use crate::events::state_event;
use crate::num::Double;
use crate::num::Single;
use crate::pipeline::live::single_speaker;
use crate::pipeline::live::speaker_for_single_source;
use crate::pipeline::live::speaker_of;
use crate::pipeline::queue::JobQueue;
use crate::pipeline::queue::enqueued;
use crate::pipeline::segmenter::AsrJob;
use crate::pipeline::segmenter::JobView;
use crate::pipeline::segmenter::SegmenterAction;
use crate::pipeline::segmenter::SourceShare;
use crate::pipeline::segmenter::ms_of;
use crate::session::SegmentView;
use crate::session::Session;
use crate::session::SessionStats;
use crate::session::SessionView;
use crate::session::Speaker;
use crate::session::TranscriptSegment;
use crate::settings::AsrProvider;
use crate::settings::AsrSettings;
use crate::text::opt_view;
use crate::util::truncate_chars;
use crate::util::truncated;

verus! {

/// How many measurements the figures are made of.
pub const MAX_SAMPLES_KEPT: usize = 10;

// ---------------------------------------------------------------------------
// Medians
// ---------------------------------------------------------------------------

pub open spec fn ascending_numbers(v: Seq<i64>) -> bool {
    forall|i: int, j: int| 0 <= i < j < v.len() ==> #[trigger] v[i] <= #[trigger] v[j]
}

/// `m` is in the middle of `v` when that is put in order; zero if there is
/// nothing.
pub open spec fn is_median(v: Seq<i64>, m: i64) -> bool {
    if v.len() == 0 {
        m == 0
    } else {
        exists|s: Seq<i64>| #[trigger]
            ascending_numbers(s) && s.to_multiset() == v.to_multiset() && m == s[v.len() as int / 2]
    }
}

fn sorted_numbers(v: &Vec<i64>) -> (r: Vec<i64>)
    ensures
        ascending_numbers(r@),
        r@.to_multiset() == v@.to_multiset(),
        r@.len() == v@.len(),
{
    let n: usize = v.len();
    let mut out: Vec<i64> = Vec::new();
    let mut i: usize = 0;
    proof {
        assert(out@ =~= v@.take(0));
    }
    while i < n
        invariant
            i <= n == v@.len(),
            out@.len() == i,
            ascending_numbers(out@),
            out@.to_multiset() == v@.take(i as int).to_multiset(),
        decreases n - i,
    {
        let x: i64 = v[i];
        let ghost before = out@;
        let mut k: usize = 0;
        while k < i && out[k] <= x
            invariant
                k <= i == out@.len(),
                before == out@,
                forall|j: int| 0 <= j < k ==> #[trigger] before[j] <= x,
            ensures
                k <= i,
                forall|j: int| 0 <= j < k ==> #[trigger] before[j] <= x,
                k < i ==> before[k as int] > x,
            decreases i - k,
        {
            k += 1;
        }
        out.insert(k, x);
        proof {
            let after = out@;
            assert(after =~= before.insert(k as int, x));
            assert forall|a: int, b: int| 0 <= a < b < after.len() implies #[trigger] after[a]
                <= #[trigger] after[b] by {
                if a < k && b < k {
                    assert(before[a] <= before[b]);
                } else if a < k && b > k {
                    assert(before[a] <= before[b - 1]);
                } else if a == k {
                    assert(before[k as int] <= before[b - 1] || b - 1 == k);
                } else if a > k {
                    assert(before[a - 1] <= before[b - 1]);
                }
            }
            vstd::seq_lib::to_multiset_insert(before, k as int, x);
            assert(v@.take(i + 1) =~= v@.take(i as int).push(x));
            vstd::seq_lib::to_multiset_build(v@.take(i as int), x);
            assert(after.to_multiset() =~= v@.take(i + 1).to_multiset());
        }
        i += 1;
    }
    proof {
        assert(v@.take(n as int) =~= v@);
    }
    out
}

pub fn median_i64(v: &Vec<i64>) -> (r: i64)
    ensures
        is_median(v@, r),
{
    let n: usize = v.len();
    if n == 0 {
        return 0;
    }
    let s = sorted_numbers(v);
    let m: i64 = s[n / 2];
    proof {
        assert(ascending_numbers(s@));
    }
    m
}

/// The ranks of some numbers.
pub open spec fn ranks(v: Seq<Single>) -> Seq<i64> {
    v.map_values(|x: Single| x.rank() as i64)
}

/// No sign bit is set.
pub open spec fn all_positive(v: Seq<Single>) -> bool {
    forall|i: int| 0 <= i < v.len() ==> (#[trigger] v[i]).bits < 0x8000_0000
}

pub fn median_single(v: &Vec<Single>) -> (r: Single)
    requires
        all_positive(v@),
    ensures
        is_median(ranks(v@), r.rank() as i64),
        r.bits < 0x8000_0000,
{
    let n: usize = v.len();
    let mut keys: Vec<i64> = Vec::new();
    let mut i: usize = 0;
    while i < n
        invariant
            i <= n == v@.len(),
            all_positive(v@),
            keys@ == ranks(v@).take(i as int),
            forall|k: int| 0 <= k < i ==> 0 <= #[trigger] keys@[k] < 0x8000_0000,
        decreases n - i,
    {
        proof {
            assert(v@[i as int].bits < 0x8000_0000);
        }
        keys.push(v[i].bits as i64);
        proof {
            assert(keys@ =~= ranks(v@).take(i + 1));
        }
        i += 1;
    }
    proof {
        assert(keys@ =~= ranks(v@));
    }
    let m: i64 = median_i64(&keys);
    proof {
        if n > 0 {
            let s = choose|s: Seq<i64>| #[trigger]
                ascending_numbers(s) && s.to_multiset() == keys@.to_multiset() && m
                    == s[keys@.len() as int / 2];
            vstd::seq_lib::to_multiset_len(s);
            vstd::seq_lib::to_multiset_len(keys@);
            vstd::seq_lib::to_multiset_contains(s, m);
            vstd::seq_lib::to_multiset_contains(keys@, m);
            assert(s.contains(m)) by {
                assert(s[n as int / 2] == m);
            }
            assert(keys@.contains(m));
            let k = choose|k: int| 0 <= k < keys@.len() && keys@[k] == m;
            assert(0 <= keys@[k] < 0x8000_0000);
        }
    }
    Single { bits: m as u32 }
}

/// `v` with `x` at its end and at most [`MAX_SAMPLES_KEPT`] items.
pub open spec fn kept<T>(v: Seq<T>, x: T) -> Seq<T> {
    let all = v.push(x);
    if all.len() > MAX_SAMPLES_KEPT {
        all.skip(all.len() - MAX_SAMPLES_KEPT)
    } else {
        all
    }
}

fn keep_number(v: &mut Vec<i64>, x: i64)
    ensures
        final(v)@ == kept(old(v)@, x),
{
    v.push(x);
    let n: usize = v.len();
    let ghost all = v@;
    if n > MAX_SAMPLES_KEPT {
        *v = v.split_off(n - MAX_SAMPLES_KEPT);
        proof {
            assert(v@ =~= all.skip(n - MAX_SAMPLES_KEPT));
        }
    }
}

fn keep_single(v: &mut Vec<Single>, x: Single)
    ensures
        final(v)@ == kept(old(v)@, x),
{
    v.push(x);
    let n: usize = v.len();
    let ghost all = v@;
    if n > MAX_SAMPLES_KEPT {
        *v = v.split_off(n - MAX_SAMPLES_KEPT);
        proof {
            assert(v@ =~= all.skip(n - MAX_SAMPLES_KEPT));
        }
    }
}

// ---------------------------------------------------------------------------
// The worker
// ---------------------------------------------------------------------------

/// What a worker needs to know.
#[derive(Debug)]
pub struct AsrWorkerConfig {
    pub session_id: String,
    pub provider: AsrProvider,
    pub settings: AsrSettings,
    /// The only source, if there is just one.
    pub single_source: Option<SourceKind>,
    /// Whether minutes are made of what is recognised.
    pub ai_ready: bool,
}

/// What a wait for jobs brought.
#[derive(Debug)]
pub enum Received {
    Job(AsrJob),
    /// No job yet.
    Nothing,
    /// There will be no more jobs.
    Closed,
}

/// A request that is under way.
pub enum Pending {
    Partial { start_ms: i64, preview: u64, audio_ms: i64 },
    Final { start_ms: i64, end_ms: i64, audio_ms: i64, share: SourceShare },
}

/// The model of a worker.
#[verifier::ext_equal]
pub ghost struct WorkerView {
    pub session: Seq<char>,
    pub live_preview: bool,
    pub context_prompt: bool,
    pub temperature: Single,
    pub single: Option<SourceKind>,
    pub ai_ready: bool,
    pub queue: Seq<JobView>,
    /// The words of the last preview.
    pub heard: Seq<TokenView>,
    /// The utterance it belongs to.
    pub current: Option<u64>,
    /// The last text that is not doubtful.
    pub tail: Option<Seq<char>>,
    pub rtfs: Seq<Single>,
    pub latencies: Seq<i64>,
}

/// The text of the request for context.
pub open spec fn context_of(wanted: bool, tail: Option<Seq<char>>) -> Option<Seq<char>> {
    if !wanted {
        None
    } else {
        match tail {
            Some(t) => Some(truncated(t, 120)),
            None => None,
        }
    }
}

pub fn context_prompt(wanted: bool, tail: &Option<String>) -> (r: Option<String>)
    ensures
        opt_view(r) == context_of(wanted, opt_view(*tail)),
{
    if !wanted {
        return None;
    }
    match tail {
        Some(t) => Some(truncate_chars(t.as_str(), 120)),
        None => None,
    }
}

/// A request with the utterance's samples and the context.
pub open spec fn asks(v: WorkerView, samples: Seq<Single>, req: TranscribeRequest) -> bool {
    &&& req.samples@ == samples
    &&& opt_view(req.prompt) == context_of(v.context_prompt, v.tail)
    &&& req.temperature == v.temperature
}

impl WorkerView {
    pub open spec fn taken(self, received: Received) -> WorkerView {
        match received {
            Received::Job(job) => WorkerView { queue: enqueued(self.queue, job@), ..self },
            _ => self,
        }
    }

    /// Whether a job is worth a request: previews only where they are wanted and
    /// not called off.
    pub open spec fn worth_asking(self, job: JobView, aborted: bool) -> bool {
        job is Final || (self.live_preview && !aborted)
    }

    /// The worker after it took up a job.
    pub open spec fn begun(self, job: JobView, aborted: bool) -> WorkerView {
        if !self.worth_asking(job, aborted) {
            self
        } else {
            match job {
                JobView::Partial { utt_id, .. } => if self.current == Some(utt_id as u64) {
                    self
                } else {
                    WorkerView {
                        heard: Seq::empty(),
                        current: Some(utt_id as u64),
                        ..self
                    }
                },
                JobView::Final { .. } => WorkerView {
                    heard: Seq::empty(),
                    current: None,
                    ..self
                },
            }
        }
    }

    /// Whether the reply to a preview shows something.
    pub open spec fn preview_shows(self, text: Seq<char>, audio_ms: int) -> bool {
        let t = cleaned(text);
        &&& t.len() > 0
        &&& doubt(t, audio_ms) is None
        &&& tokens(t).len() > 0
    }

    /// The worker after the reply to a preview.
    pub open spec fn previewed(self, text: Seq<char>, audio_ms: int) -> WorkerView {
        let t = cleaned(text);
        if t.len() > 0 && doubt(t, audio_ms) is None {
            WorkerView { heard: tokens(t), ..self }
        } else {
            self
        }
    }

    /// The worker after the reply to a whole utterance.
    pub open spec fn measured(self, elapsed_ms: u64, rtf: Single) -> WorkerView {
        WorkerView {
            rtfs: if (Single { bits: 0 }).less(rtf) {
                kept(self.rtfs, rtf)
            } else {
                self.rtfs
            },
            latencies: kept(self.latencies, elapsed_ms as i64),
            ..self
        }
    }

    pub open spec fn finished(
        self,
        text: Seq<char>,
        elapsed_ms: u64,
        audio_ms: int,
        rtf: Single,
    ) -> WorkerView {
        let t = cleaned(text);
        let m = self.measured(elapsed_ms, rtf);
        if self.context_prompt && doubt(t, audio_ms) is None {
            WorkerView { tail: Some(t), ..m }
        } else {
            m
        }
    }
}

/// The segment that a recognised text becomes.
pub open spec fn recognised_segment(
    text: Seq<char>,
    start: i64,
    end: i64,
    audio_ms: int,
    id: u64,
) -> SegmentView {
    let t = cleaned(text);
    SegmentView {
        id,
        text: t,
        start,
        end: if end > start {
            end
        } else {
            (start + 1) as i64
        },
        confidence: None,
        suspect: doubt(t, audio_ms),
    }
}

/// `after` is `before` with the segment of a recognised utterance added under
/// the next id, and with figures that are medians of what was measured.
pub open spec fn session_gains(
    before: SessionView,
    after: SessionView,
    segment: SegmentView,
    rtfs: Seq<Single>,
    latencies: Seq<i64>,
) -> bool {
    let added = before.with_segment(SegmentView { id: 0, ..segment });
    &&& after == (SessionView {
        stats: SessionStats {
            rtf: after.stats.rtf,
            latency_ms: after.stats.latency_ms,
            ..added.stats
        },
        ..added
    })
    &&& after.stats.rtf.bits < 0x8000_0000
    &&& is_median(ranks(rtfs), after.stats.rtf.rank() as i64)
    &&& is_median(latencies, after.stats.latency_ms)
}

/// Recognises jobs one after the other.
pub struct AsrWorker {
    session_id: String,
    live_preview: bool,
    context_prompt: bool,
    temperature: Single,
    single_source: Option<SourceKind>,
    ai_ready: bool,
    queue: JobQueue,
    heard: HypothesisBuffer,
    current: Option<u64>,
    tail: Option<String>,
    rtfs: Vec<Single>,
    latencies: Vec<i64>,
}

impl View for AsrWorker {
    type V = WorkerView;

    closed spec fn view(&self) -> WorkerView {
        WorkerView {
            session: self.session_id@,
            live_preview: self.live_preview,
            context_prompt: self.context_prompt,
            temperature: self.temperature,
            single: self.single_source,
            ai_ready: self.ai_ready,
            queue: self.queue@,
            heard: self.heard@,
            current: self.current,
            tail: opt_view(self.tail),
            rtfs: self.rtfs@,
            latencies: self.latencies@,
        }
    }
}

/// The text shown while a service is being connected.
pub open spec fn connecting_text(name: Seq<char>, model: Seq<char>) -> Seq<char> {
    "正在连接识别服务「"@ + name + "」（"@ + model + "）…"@
}

/// The first event of a session.
pub fn starting_event(cfg: &AsrWorkerConfig) -> (r: AppEvent)
    ensures
        r@ == (EventView::State {
            session: cfg.session_id@,
            state: AsrStateKind::Starting,
            message: Some(connecting_text(cfg.provider@.name, cfg.provider@.model)),
        }),
{
    let mut m = "正在连接识别服务「".to_owned();
    m.append(cfg.provider.name.as_str());
    m.append("」（");
    m.append(cfg.provider.model.as_str());
    m.append("）…");
    state_event(cfg.session_id.as_str(), AsrStateKind::Starting, Some(m))
}

/// The events that a step of the segmenter shows as: speech and silence.
pub fn action_event(action: &SegmenterAction, session_id: &str) -> (r: Option<AppEvent>)
    ensures
        match *action {
            SegmenterAction::SpeechStarted { .. } => r matches Some(e) && e@ == (EventView::State {
                session: session_id@,
                state: AsrStateKind::Speech,
                message: None,
            }),
            SegmenterAction::SpeechEnded { .. } => r matches Some(e) && e@ == (EventView::State {
                session: session_id@,
                state: AsrStateKind::Listening,
                message: None,
            }),
            _ => r is None,
        },
{
    match action {
        SegmenterAction::SpeechStarted { .. } => Some(
            state_event(session_id, AsrStateKind::Speech, None),
        ),
        SegmenterAction::SpeechEnded { .. } => Some(
            state_event(session_id, AsrStateKind::Listening, None),
        ),
        _ => None,
    }
}

impl AsrWorker {
    /// What was measured is positive.
    pub closed spec fn wf(&self) -> bool {
        all_positive(self.rtfs@)
    }

    pub fn new(cfg: &AsrWorkerConfig) -> (r: AsrWorker)
        ensures
            r.wf(),
            r@ == (WorkerView {
                session: cfg.session_id@,
                live_preview: cfg.settings@.live_preview,
                context_prompt: cfg.settings@.context_prompt,
                temperature: cfg.settings@.temperature,
                single: cfg.single_source,
                ai_ready: cfg.ai_ready,
                queue: Seq::empty(),
                heard: Seq::empty(),
                current: None,
                tail: None,
                rtfs: Seq::empty(),
                latencies: Seq::empty(),
            }),
    {
        let r = AsrWorker {
            session_id: cfg.session_id.clone(),
            live_preview: cfg.settings.live_preview,
            context_prompt: cfg.settings.context_prompt,
            temperature: cfg.settings.temperature,
            single_source: cfg.single_source,
            ai_ready: cfg.ai_ready,
            queue: JobQueue::new(),
            heard: HypothesisBuffer::new(),
            current: None,
            tail: None,
            rtfs: Vec::new(),
            latencies: Vec::new(),
        };
        proof {
            assert(r@.heard =~= Seq::empty());
        }
        r
    }

    /// Takes what came in and says whether the work is done: when no more jobs
    /// can come and none waits. A wish to stop does not end it, as the last
    /// utterance is still on its way then.
    pub fn receive(&mut self, received: Received) -> (done: bool)
        requires
            old(self).wf(),
        ensures
            final(self).wf(),
            final(self)@ == old(self)@.taken(received),
            done == (received is Closed && old(self)@.queue.len() == 0),
    {
        match received {
            Received::Job(job) => {
                self.push(job);
                false
            },
            Received::Nothing => false,
            Received::Closed => self.is_idle(),
        }
    }

    /// Takes in a job.
    pub fn push(&mut self, job: AsrJob)
        requires
            old(self).wf(),
        ensures
            final(self).wf(),
            final(self)@ == (WorkerView { queue: enqueued(old(self)@.queue, job@), ..old(self)@ }),
    {
        self.queue.push(job);
    }

    /// Whether nothing waits.
    pub fn is_idle(&self) -> (r: bool)
        ensures
            r == (self@.queue.len() == 0),
    {
        self.queue.is_empty()
    }

    /// The next job.
    pub fn next_job(&mut self) -> (r: Option<AsrJob>)
        requires
            old(self).wf(),
        ensures
            final(self).wf(),
            match r {
                Some(job) => old(self)@.queue.len() > 0 && job@ == old(self)@.queue[0]
                    && final(self)@ == (WorkerView {
                    queue: old(self)@.queue.drop_first(),
                    ..old(self)@
                }),
                None => old(self)@.queue.len() == 0 && final(self)@ == old(self)@,
            },
    {
        self.queue.pop()
    }

    /// Takes up a job: what to ask the service, if it is worth asking. `aborted`
    /// says that the preview was called off.
    pub fn begin(&mut self, job: AsrJob, aborted: bool) -> (r: Option<(TranscribeRequest, Pending)>)
        requires
            old(self).wf(),
        ensures
            final(self).wf(),
            final(self)@ == old(self)@.begun(job@, aborted),
            r is Some == old(self)@.worth_asking(job@, aborted),
            match job {
                AsrJob::Partial { utt_id, samples, start_ms, preview } => r matches Some(x)
                    ==> asks(old(self)@, samples@, x.0) && (x.1 matches Pending::Partial {
                    start_ms: s,
                    preview: p,
                    audio_ms,
                } && s == start_ms && p == preview && audio_ms == ms_of(samples@.len() as int)),
                AsrJob::Final { utt_id, samples, start_ms, end_ms, share } => r matches Some(x)
                    ==> asks(old(self)@, samples@, x.0) && (x.1 matches Pending::Final {
                    start_ms: s,
                    end_ms: e,
                    audio_ms,
                    share: h,
                } && s == start_ms && e == end_ms && h == share && audio_ms == ms_of(samples@.len() as int)),
            },
    {
        match job {
            AsrJob::Partial { utt_id, samples, start_ms, preview } => {
                if !self.live_preview || aborted {
                    return None;
                }
                let same_utt: bool = match self.current {
                    Some(u) => u == utt_id,
                    None => false,
                };
                if !same_utt {
                    self.heard.reset();
                    self.current = Some(utt_id);
                    proof {
                        assert(self.heard@ =~= Seq::empty());
                    }
                }
                let audio_ms: i64 = (samples.len() / 16) as i64;
                let req = TranscribeRequest {
                    samples,
                    prompt: context_prompt(self.context_prompt, &self.tail),
                    temperature: self.temperature,
                };
                Some((req, Pending::Partial { start_ms, preview, audio_ms }))
            },
            AsrJob::Final { utt_id, samples, start_ms, end_ms, share } => {
                self.heard.reset();
                self.current = None;
                proof {
                    assert(self.heard@ =~= Seq::empty());
                }
                let audio_ms: i64 = (samples.len() / 16) as i64;
                let req = TranscribeRequest {
                    samples,
                    prompt: context_prompt(self.context_prompt, &self.tail),
                    temperature: self.temperature,
                };
                Some((req, Pending::Final { start_ms, end_ms, audio_ms, share }))
            },
        }
    }

    /// Whose voice an utterance is: that of the only source, or as the energies of
    /// the sources say (see [`SourceShare::speaker`]).
    pub fn speaker<M>(&self, share: &SourceShare, measure: &M) -> (r: Speaker) where
        M: Fn(&[(SourceKind, Single)]) -> (Double, Double),

        requires
            forall|s: &[(SourceKind, Single)]| #[trigger] call_requires(*measure, (s,)),
        ensures
            match self@.single {
                Some(_) => r == single_speaker(self@.single),
                None => exists|s: &[(SourceKind, Single)], m: (Double, Double)|
                    s@ == share@ && #[trigger] call_ensures(*measure, (s,), m) && r
                        == speaker_of(m.0, m.1),
            },
    {
        match self.single_source {
            Some(kind) => speaker_for_single_source(Some(kind)),
            None => share.speaker(measure),
        }
    }

    /// Takes the reply to a preview and returns what to show. Nothing is shown of
    /// a preview that was called off, failed, or is doubtful.
    pub fn preview_reply(
        &mut self,
        text: Option<&str>,
        start_ms: i64,
        audio_ms: i64,
        aborted: bool,
    ) -> (r: Option<AppEvent>)
        requires
            old(self).wf(),
        ensures
            final(self).wf(),
            match text {
                Some(t) => if aborted {
                    r is None && final(self)@ == old(self)@
                } else {
                    &&& final(self)@ == old(self)@.previewed(t@, audio_ms as int)
                    &&& match r {
                        Some(e) => old(self)@.preview_shows(t@, audio_ms as int) && e@ == (
                        EventView::Partial {
                            session: old(self)@.session,
                            committed: committed_part(old(self)@.heard, cleaned(t@)),
                            tentative: tentative_part(old(self)@.heard, cleaned(t@)),
                            start: start_ms,
                        }),
                        None => !old(self)@.preview_shows(t@, audio_ms as int),
                    }
                },
                None => r is None && final(self)@ == old(self)@,
            },
    {
        let t = match text {
            Some(t) => t,
            None => {
                return None;
            },
        };
        if aborted {
            return None;
        }
        let clean = clean_text(t);
        if clean.as_str().unicode_len() == 0 {
            return None;
        }
        if suspect_reason(clean.as_str(), audio_ms).is_some() {
            return None;
        }
        let agreement = self.heard.update(clean.as_str());
        if agreement.is_empty() {
            return None;
        }
        Some(
            AppEvent::Partial(
                AsrPartialEvent {
                    session_id: self.session_id.clone(),
                    committed: agreement.committed,
                    tentative: agreement.tentative,
                    start_ms,
                },
            ),
        )
    }

    /// Takes the reply to a whole utterance: it becomes a segment of the session,
    /// and what was shown of the utterance so far goes away. A failed request
    /// does not end the session; it is reported and the next utterance follows.
    /// The second result says whether the minutes have something new.
    pub fn final_reply(
        &mut self,
        result: AppResult<AsrOutcome>,
        speaker: Speaker,
        rtf: Single,
        start_ms: i64,
        end_ms: i64,
        audio_ms: i64,
        session: &mut Session,
    ) -> (r: (Vec<AppEvent>, bool))
        requires
            old(self).wf(),
            start_ms < i64::MAX,
            result matches Ok(o) ==> o.elapsed_ms <= i64::MAX && old(session)@.segments.len()
                < i64::MAX && old(session)@.stats.chars + cleaned(o.text@).len() <= i64::MAX,
        ensures
            final(self).wf(),
            match result {
                Err(e) => {
                    &&& final(self)@ == old(self)@
                    &&& final(session)@ == old(session)@
                    &&& !r.1
                    &&& event_views(r.0@) == seq![
                        EventView::Error { scope: "asr"@, text: e@.message() },
                        EventView::Partial {
                            session: old(self)@.session,
                            committed: Seq::empty(),
                            tentative: Seq::empty(),
                            start: end_ms,
                        },
                    ]
                },
                Ok(o) => {
                    let segment = recognised_segment(
                        o.text@,
                        start_ms,
                        end_ms,
                        audio_ms as int,
                        old(session)@.upcoming_id(),
                    );
                    &&& final(self)@ == old(self)@.finished(
                        o.text@,
                        o.elapsed_ms,
                        audio_ms as int,
                        rtf,
                    )
                    &&& session_gains(
                        old(session)@,
                        final(session)@,
                        segment,
                        final(self)@.rtfs,
                        final(self)@.latencies,
                    )
                    &&& r.1 == (old(self)@.ai_ready && segment.suspect is None)
                    &&& event_views(r.0@) == seq![
                        EventView::Segment { session: old(self)@.session, segment, speaker },
                        EventView::Partial {
                            session: old(self)@.session,
                            committed: Seq::empty(),
                            tentative: Seq::empty(),
                            start: end_ms,
                        },
                    ]
                },
            },
    {
        let mut events: Vec<AppEvent> = Vec::new();
        let out = match result {
            Ok(o) => o,
            Err(e) => {
                events.push(error_event("asr", e.message().as_str()));
                events.push(cleared_event(self.session_id.as_str(), end_ms));
                proof {
                    assert(event_views(events@) =~= seq![events@[0]@, events@[1]@]);
                }
                return (events, false);
            },
        };
        let ghost before = self@;
        let ghost given = session@;
        if Single::zero().lt(rtf) {
            let ghost old_rtfs = self.rtfs@;
            keep_single(&mut self.rtfs, rtf);
            proof {
                let all = old_rtfs.push(rtf);
                assert forall|i: int| 0 <= i < self.rtfs@.len() implies (
                #[trigger] self.rtfs@[i]).bits < 0x8000_0000 by {
                    let k = i + (all.len() - self.rtfs@.len());
                    assert(self.rtfs@[i] == all[k]);
                    if k < old_rtfs.len() {
                        assert(old_rtfs[k].bits < 0x8000_0000);
                    }
                }
            }
        }
        keep_number(&mut self.latencies, out.elapsed_ms as i64);
        let text = clean_text(out.text.as_str());
        let suspect = suspect_reason(text.as_str(), audio_ms);
        let trusted: bool = suspect.is_none();
        let end: i64 = if end_ms > start_ms {
            end_ms
        } else {
            start_ms + 1
        };
        let id: u64 = session.next_id();
        let segment = TranscriptSegment {
            id,
            text: text.clone(),
            start_ms,
            end_ms: end,
            confidence: None,
            suspect,
        };
        let ghost sv = segment@;
        let shown = segment.duplicate();
        let kept_id: u64 = add_recognised(session, segment, Ghost(given));
        session.stats.rtf = median_single(&self.rtfs);
        session.stats.latency_ms = median_i64(&self.latencies);
        if self.context_prompt && trusted {
            self.tail = Some(text);
        }
        events.push(
            AppEvent::Segment(
                AsrSegmentEvent { session_id: self.session_id.clone(), segment: shown, speaker },
            ),
        );
        events.push(cleared_event(self.session_id.as_str(), end_ms));
        proof {
            assert(event_views(events@) =~= seq![events@[0]@, events@[1]@]);
            assert(session_gains(given, session@, sv, self@.rtfs, self@.latencies));
        }
        (events, self.ai_ready && trusted)
    }
}

/// Adds a segment that already took the next id.
fn add_recognised(
    session: &mut Session,
    segment: TranscriptSegment,
    Ghost(given): Ghost<SessionView>,
) -> (id: u64)
    requires
        old(session)@ == (SessionView {
            next_id: crate::session::successor(given.upcoming_id()),
            ..given
        }),
        segment@.id == given.upcoming_id(),
        given.segments.len() < i64::MAX,
        given.stats.chars + segment@.text.len() <= i64::MAX,
    ensures
        final(session)@ == given.with_segment(SegmentView { id: 0, ..segment@ }),
        id == segment@.id,
{
    let ghost sv = segment@;
    let id: u64 = session.push_segment(segment);
    proof {
        let target = given.with_segment(SegmentView { id: 0, ..sv });
        assert(given.upcoming_id() > 0);
        assert(session@.segments =~= target.segments);
        assert(session@ =~= target);
    }
    id
}

// ---------------------------------------------------------------------------
// Laws
// ---------------------------------------------------------------------------

/// Every reply becomes a segment, a doubtful one too: nothing that a service
/// returned is dropped, and no earlier segment changes.
pub proof fn law_replies_are_never_lost(
    before: SessionView,
    after: SessionView,
    segment: SegmentView,
    rtfs: Seq<Single>,
    latencies: Seq<i64>,
)
    requires
        session_gains(before, after, segment, rtfs, latencies),
        segment.id == before.upcoming_id(),
    ensures
        after.segments == before.segments.push(segment),
        after.summary == before.summary,
{
    assert(after.segments =~= before.segments.push(segment));
}

/// A doubtful reply gives no context to later requests.
pub proof fn law_doubtful_replies_give_no_context(
    v: WorkerView,
    text: Seq<char>,
    elapsed_ms: u64,
    audio_ms: int,
    rtf: Single,
)
    requires
        doubt(cleaned(text), audio_ms) is Some,
    ensures
        v.finished(text, elapsed_ms, audio_ms, rtf).tail == v.tail,
{
}

/// A preview of a new utterance settles nothing: nothing of the utterance before
/// it is confirmed by it.
pub proof fn law_new_utterance_starts_afresh(v: WorkerView, job: JobView)
    requires
        v.worth_asking(job, false),
        job matches JobView::Partial { utt_id, .. } ==> v.current != Some(utt_id as u64),
    ensures
        v.begun(job, false).heard == Seq::<TokenView>::empty(),
{
}

/// What a service returns becomes a segment with the cleaned text, at the time of the
/// utterance, and with the reason for doubt if there is one; it never ends before it
/// begins.
pub proof fn law_segments_say_what_was_recognised(
    text: Seq<char>,
    start: i64,
    end: i64,
    audio_ms: int,
    id: u64,
)
    requires
        start < i64::MAX,
    ensures
        ({
            let r = recognised_segment(text, start, end, audio_ms, id);
            &&& r.text == cleaned(text)
            &&& r.start == start && r.start < r.end
            &&& start < end ==> r.end == end
            &&& r.suspect == doubt(cleaned(text), audio_ms)
            &&& r.id == id && r.confidence is None
        }),
{
}

/// A reply that is not doubtful is the context of the next request, if context is
/// wanted; at most a hundred and twenty characters of it are sent. Without the wish
/// none is ever sent.
pub proof fn law_trusted_replies_are_the_context(
    v: WorkerView,
    text: Seq<char>,
    elapsed_ms: u64,
    audio_ms: int,
    rtf: Single,
)
    ensures
        ({
            let r = v.finished(text, elapsed_ms, audio_ms, rtf);
            &&& v.context_prompt && doubt(cleaned(text), audio_ms) is None ==> r.tail == Some(
                cleaned(text),
            )
            &&& v.context_prompt && doubt(cleaned(text), audio_ms) is None && cleaned(text).len()
                <= 120 ==> context_of(true, r.tail) == Some(cleaned(text))
            &&& !v.context_prompt ==> r.tail == v.tail
            &&& context_of(false, r.tail) is None
            &&& context_of(true, None) is None
            &&& r.queue == v.queue && r.session == v.session && r.live_preview == v.live_preview
            &&& r.single == v.single && r.temperature == v.temperature
        }),
        forall|t: Seq<char>| t.len() > 120 ==> #[trigger] context_of(true, Some(t)) == Some(
            t.take(120).push('…'),
        ),
{
}

/// The latency and the speed of each reply are noted as measured, the last of each
/// at the end, and only so many of the oldest are forgotten as there is no room for.
pub proof fn law_measurements_are_noted(v: WorkerView, elapsed_ms: u64, rtf: Single)
    requires
        elapsed_ms <= i64::MAX,
    ensures
        ({
            let r = v.measured(elapsed_ms, rtf);
            &&& r.latencies.last() == elapsed_ms
            &&& r.latencies.is_suffix_of(v.latencies.push(elapsed_ms as i64))
            &&& v.latencies.len() < 10 ==> r.latencies.len() == v.latencies.len() + 1
            &&& (Single { bits: 0 }).less(rtf) ==> r.rtfs.last() == rtf && r.rtfs.is_suffix_of(
                v.rtfs.push(rtf),
            )
            &&& !(Single { bits: 0 }).less(rtf) ==> r.rtfs == v.rtfs
        }),
{
    let r = v.measured(elapsed_ms, rtf);
    let a = v.latencies.push(elapsed_ms as i64);
    assert(r.latencies =~= a.skip(a.len() - r.latencies.len()));
    let b = v.rtfs.push(rtf);
    if (Single { bits: 0 }).less(rtf) {
        assert(r.rtfs =~= b.skip(b.len() - r.rtfs.len()));
    }
}

/// Whole utterances are always recognised; previews only where they are wanted and
/// were not called off.
pub proof fn law_whole_utterances_are_always_recognised(v: WorkerView, job: JobView, aborted: bool)
    ensures
        job is Final ==> v.worth_asking(job, aborted),
        job is Partial && v.live_preview && !aborted ==> v.worth_asking(job, aborted),
        job is Partial && (aborted || !v.live_preview) ==> !v.worth_asking(job, aborted),
{
}

/// A preview that can be trusted is shown, and the next one is compared with its
/// words; nothing else is shown, and nothing else changes.
pub proof fn law_previews_are_compared_with_the_last(v: WorkerView, text: Seq<char>, audio_ms: int)
    ensures
        ({
            let r = v.previewed(text, audio_ms);
            let t = cleaned(text);
            &&& v.preview_shows(text, audio_ms) ==> r.heard == tokens(t)
            &&& doubt(t, audio_ms) is Some || t.len() == 0 ==> r == v && !v.preview_shows(
                text,
                audio_ms,
            )
            &&& t.len() > 0 && doubt(t, audio_ms) is None && tokens(t).len() > 0
                ==> v.preview_shows(text, audio_ms)
            &&& r.tail == v.tail && r.queue == v.queue && r.current == v.current
        }),
{
}

/// The figures are made of the last measurements only.
pub proof fn law_few_measurements_are_kept(v: WorkerView, elapsed_ms: u64, rtf: Single)
    requires
        v.rtfs.len() <= MAX_SAMPLES_KEPT,
        v.latencies.len() <= MAX_SAMPLES_KEPT,
    ensures
        v.measured(elapsed_ms, rtf).rtfs.len() <= MAX_SAMPLES_KEPT,
        v.measured(elapsed_ms, rtf).latencies.len() <= MAX_SAMPLES_KEPT,
        v.measured(elapsed_ms, rtf).latencies.last() == elapsed_ms as i64,
{
}

/// What [`AsrWorker::begin`] asks a service: all samples of the job, and no others; and
/// what it remembers of a whole utterance is the utterance's own times and energies.
pub proof fn law_requests_carry_the_utterance(
    worker: &mut AsrWorker,
    job: AsrJob,
    aborted: bool,
    r: Option<(TranscribeRequest, Pending)>,
)
    requires
        call_ensures(AsrWorker::begin, (worker, job, aborted), r),
    ensures
        job matches AsrJob::Final { utt_id, samples, start_ms, end_ms, share } ==> (r matches Some(x)
            && x.0.samples@ == samples@ && (x.1 matches Pending::Final {
            start_ms: s,
            end_ms: e,
            audio_ms,
            share: h,
        } && s == start_ms && e == end_ms && h@ == share@ && audio_ms == samples@.len() * 1000
            / 16000)),
        job matches AsrJob::Partial { utt_id, samples, start_ms, preview } ==> (r matches Some(x)
            ==> x.0.samples@ == samples@ && !aborted),
        job is Partial && aborted ==> r is None,
{
}

/// What [`AsrWorker::final_reply`] does with a reply: its cleaned text is the last
/// segment of the session, at the time of the utterance, with the next id, and is shown
/// with its speaker; what failed is reported and changes nothing.
pub proof fn law_replies_become_segments(
    worker: &mut AsrWorker,
    result: AppResult<AsrOutcome>,
    speaker: Speaker,
    rtf: Single,
    start_ms: i64,
    end_ms: i64,
    audio_ms: i64,
    session: &mut Session,
    r: (Vec<AppEvent>, bool),
)
    requires
        call_ensures(
            AsrWorker::final_reply,
            (worker, result, speaker, rtf, start_ms, end_ms, audio_ms, session),
            r,
        ),
        start_ms < end_ms,
        old(session).segments@.len() < i64::MAX,
    ensures
        result matches Ok(o) ==> {
            let last = final(session)@.segments.last();
            &&& final(session)@.segments.drop_last() == old(session)@.segments
            &&& last.text == cleaned(o.text@)
            &&& last.start == start_ms && last.end == end_ms
            &&& last.suspect == doubt(cleaned(o.text@), audio_ms as int)
            &&& r.0@.len() == 2
            &&& r.0@[0]@ == (EventView::Segment {
                session: old(worker)@.session,
                segment: last,
                speaker,
            })
            &&& r.1 == (old(worker)@.ai_ready && last.suspect is None)
            &&& final(session)@.summary == old(session)@.summary
        },
        result matches Err(e) ==> final(session)@ == old(session)@ && !r.1 && r.0@.len() == 2
            && r.0@[0]@ == (EventView::Error { scope: "asr"@, text: e@.message() }),
{
    if let Ok(o) = result {
        let segment = recognised_segment(
            o.text@,
            start_ms,
            end_ms,
            audio_ms as int,
            old(session)@.upcoming_id(),
        );
        law_replies_are_never_lost(
            old(session)@,
            final(session)@,
            segment,
            final(worker)@.rtfs,
            final(worker)@.latencies,
        );
        assert(final(session)@.segments.drop_last() =~= old(session)@.segments);
        assert(event_views(r.0@).len() == r.0@.len());
        assert(event_views(r.0@)[0] == r.0@[0]@);
    }
    if let Err(e) = result {
        assert(event_views(r.0@).len() == r.0@.len());
        assert(event_views(r.0@)[0] == r.0@[0]@);
    }
}

} // verus!
