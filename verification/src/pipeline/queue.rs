//! The queue in front of speech recognition.
//!
//! Recognition takes longer than new previews take to arrive, so outdated work is
//! dropped when newer work comes in.

use std::collections::VecDeque;
use vstd::prelude::*;
use crate::pipeline::segmenter::AsrJob;
use crate::pipeline::segmenter::JobView;

verus! {

/// A preview of utterance `id`.
pub open spec fn is_partial_of(job: JobView, id: int) -> bool {
    job matches JobView::Partial { utt_id, .. } && utt_id == id
}

/// The recognition of the whole utterance `id`.
pub open spec fn is_final_of(job: JobView, id: int) -> bool {
    job matches JobView::Final { utt_id, .. } && utt_id == id
}

pub open spec fn has_final(jobs: Seq<JobView>, id: int) -> bool {
    exists|i: int| 0 <= i < jobs.len() && is_final_of(#[trigger] jobs[i], id)
}

/// The jobs but for previews of utterance `id`, in the same order.
pub open spec fn without_partials(jobs: Seq<JobView>, id: int) -> Seq<JobView>
    decreases jobs.len(),
{
    if jobs.len() == 0 {
        jobs
    } else if is_partial_of(jobs.last(), id) {
        without_partials(jobs.drop_last(), id)
    } else {
        without_partials(jobs.drop_last(), id).push(jobs.last())
    }
}

/// The queue after `job` came in. A new preview replaces an older one of the
/// same utterance; the whole utterance replaces all its previews, and previews
/// that come after it are dropped.
pub open spec fn enqueued(jobs: Seq<JobView>, job: JobView) -> Seq<JobView> {
    match job {
        JobView::Partial { utt_id, .. } => if has_final(jobs, utt_id) {
            jobs
        } else {
            without_partials(jobs, utt_id).push(job)
        },
        JobView::Final { utt_id, .. } => without_partials(jobs, utt_id).push(job),
    }
}

/// The whole utterances in a queue, in order.
pub open spec fn finals(jobs: Seq<JobView>) -> Seq<JobView>
    decreases jobs.len(),
{
    if jobs.len() == 0 {
        jobs
    } else if jobs.last() is Final {
        finals(jobs.drop_last()).push(jobs.last())
    } else {
        finals(jobs.drop_last())
    }
}

/// No utterance has two previews, or a preview beside the whole.
pub open spec fn coalesced(jobs: Seq<JobView>) -> bool {
    forall|i: int, j: int, id: int|
        0 <= i < jobs.len() && 0 <= j < jobs.len() && i != j && #[trigger] is_partial_of(
            jobs[i],
            id,
        ) ==> !(#[trigger] is_partial_of(jobs[j], id)) && !is_final_of(jobs[j], id)
}

pub open spec fn job_views(jobs: Seq<AsrJob>) -> Seq<JobView> {
    jobs.map_values(|j: AsrJob| j@)
}

/// Jobs waiting for recognition.
pub struct JobQueue {
    pending: VecDeque<AsrJob>,
}

impl View for JobQueue {
    type V = Seq<JobView>;

    closed spec fn view(&self) -> Seq<JobView> {
        job_views(self.pending@)
    }
}

impl JobQueue {
    pub fn new() -> (r: JobQueue)
        ensures
            r@ == Seq::<JobView>::empty(),
    {
        let r = JobQueue { pending: VecDeque::new() };
        proof {
            assert(r@ =~= Seq::empty());
        }
        r
    }

    pub fn len(&self) -> (r: usize)
        ensures
            r == self@.len(),
    {
        self.pending.len()
    }

    pub fn is_empty(&self) -> (r: bool)
        ensures
            r == (self@.len() == 0),
    {
        self.pending.len() == 0
    }

    fn holds_final(&self, id: u64) -> (r: bool)
        ensures
            r == has_final(self@, id as int),
    {
        let n: usize = self.pending.len();
        let mut i: usize = 0;
        while i < n
            invariant
                i <= n == self.pending@.len(),
                forall|k: int| 0 <= k < i ==> !is_final_of(#[trigger] self@[k], id as int),
            decreases n - i,
        {
            if let AsrJob::Final { utt_id, .. } = &self.pending[i] {
                if *utt_id == id {
                    proof {
                        assert(is_final_of(self@[i as int], id as int));
                    }
                    return true;
                }
            }
            i += 1;
        }
        false
    }

    fn drop_partials(&mut self, id: u64)
        ensures
            final(self)@ == without_partials(old(self)@, id as int),
    {
        let ghost all = self@;
        let mut kept: VecDeque<AsrJob> = VecDeque::new();
        let ghost mut i: int = 0;
        proof {
            assert(job_views(kept@) =~= without_partials(all.take(0), id as int));
            assert(self@ =~= all.skip(0));
        }
        while self.pending.len() > 0
            invariant
                0 <= i <= all.len(),
                self@ == all.skip(i),
                job_views(kept@) == without_partials(all.take(i), id as int),
            decreases self.pending@.len(),
        {
            let ghost before = self@;
            proof {
                assert(before.len() == self.pending@.len());
                assert(i < all.len());
            }
            let next = self.pending.pop_front();
            if let Some(job) = next {
                proof {
                    assert(self@ =~= before.drop_first());
                    assert(job@ == all.skip(i)[0]);
                    assert(self@ =~= all.skip(i + 1));
                    assert(all.take(i + 1).drop_last() =~= all.take(i));
                    assert(all.take(i + 1).last() == all[i]);
                }
                let dropped: bool = match &job {
                    AsrJob::Partial { utt_id, .. } => *utt_id == id,
                    AsrJob::Final { .. } => false,
                };
                if !dropped {
                    let ghost so_far = job_views(kept@);
                    let ghost view = job@;
                    kept.push_back(job);
                    proof {
                        assert(job_views(kept@) =~= so_far.push(view));
                    }
                }
                proof {
                    i = i + 1;
                }
            }
        }
        proof {
            assert(all.take(i) =~= all);
        }
        self.pending = kept;
    }

    /// Takes in a job and drops what it makes outdated.
    pub fn push(&mut self, job: AsrJob)
        ensures
            final(self)@ == enqueued(old(self)@, job@),
    {
        let ghost view = job@;
        let id: u64 = match &job {
            AsrJob::Partial { utt_id, .. } => *utt_id,
            AsrJob::Final { utt_id, .. } => *utt_id,
        };
        let partial: bool = match &job {
            AsrJob::Partial { .. } => true,
            AsrJob::Final { .. } => false,
        };
        if partial && self.holds_final(id) {
            return ;
        }
        self.drop_partials(id);
        let ghost before = self@;
        self.pending.push_back(job);
        proof {
            assert(self@ =~= before.push(view));
        }
    }

    /// The oldest job.
    pub fn pop(&mut self) -> (r: Option<AsrJob>)
        ensures
            match r {
                Some(job) => old(self)@.len() > 0 && job@ == old(self)@[0] && final(self)@
                    == old(self)@.drop_first(),
                None => old(self)@.len() == 0 && final(self)@ == old(self)@,
            },
    {
        let r = self.pending.pop_front();
        proof {
            if r is Some {
                assert(self@ =~= old(self)@.drop_first());
            }
        }
        r
    }
}

proof fn lemma_without_partials(jobs: Seq<JobView>, id: int)
    ensures
        forall|i: int|
            0 <= i < without_partials(jobs, id).len() ==> !is_partial_of(
                #[trigger] without_partials(jobs, id)[i],
                id,
            ),
        finals(without_partials(jobs, id)) == finals(jobs),
    decreases jobs.len(),
{
    if jobs.len() > 0 {
        lemma_without_partials(jobs.drop_last(), id);
        let before = without_partials(jobs.drop_last(), id);
        if !is_partial_of(jobs.last(), id) {
            assert(before.push(jobs.last()).drop_last() =~= before);
        }
    }
}

proof fn lemma_without_partials_coalesced(jobs: Seq<JobView>, id: int)
    requires
        coalesced(jobs),
    ensures
        coalesced(without_partials(jobs, id)),
        forall|i: int|
            0 <= i < without_partials(jobs, id).len() ==> jobs.contains(
                #[trigger] without_partials(jobs, id)[i],
            ),
    decreases jobs.len(),
{
    if jobs.len() > 0 {
        let head = jobs.drop_last();
        assert(coalesced(head)) by {
            assert forall|i: int, j: int, k: int|
                0 <= i < head.len() && 0 <= j < head.len() && i != j && #[trigger] is_partial_of(
                    head[i],
                    k,
                ) implies !(#[trigger] is_partial_of(head[j], k)) && !is_final_of(head[j], k) by {
                assert(is_partial_of(jobs[i], k));
                assert(head[j] == jobs[j]);
                assert(!is_partial_of(jobs[j], k));
            }
        }
        lemma_without_partials_coalesced(head, id);
        let before = without_partials(head, id);
        let r = without_partials(jobs, id);
        assert forall|i: int| 0 <= i < r.len() implies jobs.contains(#[trigger] r[i]) by {
            if i < before.len() {
                assert(r[i] == before[i]);
                let k = choose|k: int| 0 <= k < head.len() && head[k] == before[i];
                assert(jobs[k] == r[i]);
            } else {
                assert(r[i] == jobs[jobs.len() - 1]);
            }
        }
        if !is_partial_of(jobs.last(), id) {
            assert forall|i: int, j: int, k: int|
                0 <= i < r.len() && 0 <= j < r.len() && i != j && #[trigger] is_partial_of(
                    r[i],
                    k,
                ) implies !(#[trigger] is_partial_of(r[j], k)) && !is_final_of(r[j], k) by {
                let last = jobs.len() - 1;
                if i < before.len() && j < before.len() {
                    assert(is_partial_of(before[i], k));
                    assert(!is_partial_of(before[j], k));
                } else if i < before.len() {
                    assert(head.contains(before[i]));
                    let m = choose|m: int| 0 <= m < head.len() && head[m] == before[i];
                    assert(is_partial_of(jobs[m], k));
                    assert(!is_partial_of(jobs[last], k));
                } else {
                    assert(head.contains(before[j]));
                    let m = choose|m: int| 0 <= m < head.len() && head[m] == before[j];
                    assert(is_partial_of(jobs[last], k));
                    assert(!is_partial_of(jobs[m], k));
                }
            }
        }
    }
}

/// However jobs come in, an utterance never has two previews in the queue, nor
/// a preview beside the whole.
pub proof fn law_queue_stays_coalesced(jobs: Seq<JobView>, job: JobView)
    requires
        coalesced(jobs),
    ensures
        coalesced(enqueued(jobs, job)),
{
    let id = match job {
        JobView::Partial { utt_id, .. } => utt_id,
        JobView::Final { utt_id, .. } => utt_id,
    };
    let kept = without_partials(jobs, id);
    lemma_without_partials(jobs, id);
    lemma_without_partials_coalesced(jobs, id);
    let r = enqueued(jobs, job);
    if !(job is Partial && has_final(jobs, id)) {
        assert forall|i: int, j: int, k: int|
            0 <= i < r.len() && 0 <= j < r.len() && i != j && #[trigger] is_partial_of(
                r[i],
                k,
            ) implies !(#[trigger] is_partial_of(r[j], k)) && !is_final_of(r[j], k) by {
            if i < kept.len() && j < kept.len() {
                assert(is_partial_of(kept[i], k));
                assert(!is_partial_of(kept[j], k));
            } else if i < kept.len() {
                assert(!is_partial_of(kept[i], id));
            } else {
                assert(r[i] == job);
                assert(!is_partial_of(kept[j], id));
                assert(jobs.contains(kept[j]));
                if is_final_of(kept[j], id) {
                    let m = choose|m: int| 0 <= m < jobs.len() && jobs[m] == kept[j];
                    assert(is_final_of(jobs[m], id));
                }
            }
        }
    }
}

/// A whole utterance that came in stays until it is taken out, in order of
/// arrival: what comes in later never removes it.
pub proof fn law_finals_are_never_dropped(jobs: Seq<JobView>, job: JobView)
    ensures
        finals(enqueued(jobs, job)) == if job is Final {
            finals(jobs).push(job)
        } else {
            finals(jobs)
        },
{
    let id = match job {
        JobView::Partial { utt_id, .. } => utt_id,
        JobView::Final { utt_id, .. } => utt_id,
    };
    lemma_without_partials(jobs, id);
    let kept = without_partials(jobs, id);
    assert(kept.push(job).drop_last() =~= kept);
}

/// After the whole of an utterance came in, no preview of it is left, and none
/// is taken in while it waits.
pub proof fn law_final_supersedes_partials(jobs: Seq<JobView>, whole: JobView, late: JobView, id: int)
    requires
        is_final_of(whole, id),
        is_partial_of(late, id),
    ensures
        forall|i: int|
            0 <= i < enqueued(jobs, whole).len() ==> !is_partial_of(
                #[trigger] enqueued(jobs, whole)[i],
                id,
            ),
        enqueued(enqueued(jobs, whole), late) == enqueued(jobs, whole),
{
    lemma_without_partials(jobs, id);
    let r = enqueued(jobs, whole);
    assert(is_final_of(r[r.len() - 1], id));
}

/// The utterance that a job belongs to.
pub open spec fn utterance_of(job: JobView) -> int {
    match job {
        JobView::Partial { utt_id, .. } => utt_id,
        JobView::Final { utt_id, .. } => utt_id,
    }
}

/// The jobs of other utterances, in order.
pub open spec fn of_others(jobs: Seq<JobView>, id: int) -> Seq<JobView>
    decreases jobs.len(),
{
    if jobs.len() == 0 {
        jobs
    } else if utterance_of(jobs.last()) == id {
        of_others(jobs.drop_last(), id)
    } else {
        of_others(jobs.drop_last(), id).push(jobs.last())
    }
}

proof fn lemma_of_others(jobs: Seq<JobView>, id: int)
    ensures
        of_others(without_partials(jobs, id), id) == of_others(jobs, id),
    decreases jobs.len(),
{
    if jobs.len() > 0 {
        lemma_of_others(jobs.drop_last(), id);
        let before = without_partials(jobs.drop_last(), id);
        if !is_partial_of(jobs.last(), id) {
            assert(before.push(jobs.last()).drop_last() =~= before);
        }
    }
}

/// A job that comes in drops and moves no job of another utterance.
pub proof fn law_other_utterances_are_untouched(jobs: Seq<JobView>, job: JobView)
    ensures
        of_others(enqueued(jobs, job), utterance_of(job)) == of_others(jobs, utterance_of(job)),
{
    let id = utterance_of(job);
    lemma_of_others(jobs, id);
    let kept = without_partials(jobs, id);
    assert(kept.push(job).drop_last() =~= kept);
}

/// A job that comes in waits behind all others, as it is; only a preview whose whole
/// utterance waits already is not taken in. What it makes outdated are the previews of
/// its own utterance, and nothing else.
pub proof fn law_new_jobs_wait_at_the_end(jobs: Seq<JobView>, job: JobView)
    ensures
        job is Final || !has_final(jobs, utterance_of(job)) ==> enqueued(jobs, job) == jobs.filter(
            |j: JobView| !(j is Partial && utterance_of(j) == utterance_of(job)),
        ).push(job),
        job is Partial && has_final(jobs, utterance_of(job)) ==> enqueued(jobs, job) == jobs,
{
    lemma_without_partials_filter(jobs, utterance_of(job));
}

proof fn lemma_without_partials_filter(jobs: Seq<JobView>, id: int)
    ensures
        without_partials(jobs, id) == jobs.filter(
            |j: JobView| !(j is Partial && utterance_of(j) == id),
        ),
    decreases jobs.len(),
{
    reveal(Seq::filter);
    if jobs.len() > 0 {
        lemma_without_partials_filter(jobs.drop_last(), id);
    }
}

/// What happens to a queue.
pub ghost enum QueueEvent {
    Push(JobView),
    Pop,
}

/// The queue after what happened to it, empty at first.
pub open spec fn queue_after(events: Seq<QueueEvent>) -> Seq<JobView>
    decreases events.len(),
{
    if events.len() == 0 {
        Seq::empty()
    } else {
        let before = queue_after(events.drop_last());
        match events.last() {
            QueueEvent::Push(job) => enqueued(before, job),
            QueueEvent::Pop => if before.len() > 0 {
                before.drop_first()
            } else {
                before
            },
        }
    }
}

/// All jobs that came in, in order.
pub open spec fn arrived(events: Seq<QueueEvent>) -> Seq<JobView>
    decreases events.len(),
{
    if events.len() == 0 {
        Seq::empty()
    } else {
        match events.last() {
            QueueEvent::Push(job) => arrived(events.drop_last()).push(job),
            QueueEvent::Pop => arrived(events.drop_last()),
        }
    }
}

/// No preview of the same utterance came in after the `k`-th job, if that is a
/// preview.
pub open spec fn newest(all: Seq<JobView>, k: int) -> bool {
    all[k] is Partial ==> forall|m: int|
        k < m < all.len() ==> !is_partial_of(#[trigger] all[m], utterance_of(all[k]))
}

/// The jobs that wait are those that came in at the places `at`, in the order in
/// which they came in, and each preview is the newest of its utterance.
pub open spec fn waits_in_order(all: Seq<JobView>, waiting: Seq<JobView>, at: Seq<int>) -> bool {
    &&& at.len() == waiting.len()
    &&& forall|i: int|
        0 <= i < at.len() ==> 0 <= #[trigger] at[i] < all.len() && all[at[i]] == waiting[i]
            && newest(all, at[i])
    &&& forall|i: int, j: int| 0 <= i < j < at.len() ==> #[trigger] at[i] < #[trigger] at[j]
}

/// The places of the jobs that are left when previews of `id` go.
spec fn places_left(waiting: Seq<JobView>, at: Seq<int>, id: int) -> Seq<int>
    decreases waiting.len(),
{
    if waiting.len() == 0 {
        Seq::empty()
    } else if is_partial_of(waiting.last(), id) {
        places_left(waiting.drop_last(), at.drop_last(), id)
    } else {
        places_left(waiting.drop_last(), at.drop_last(), id).push(at.last())
    }
}

proof fn lemma_places_left(all: Seq<JobView>, waiting: Seq<JobView>, at: Seq<int>, id: int)
    requires
        waits_in_order(all, waiting, at),
    ensures
        waits_in_order(all, without_partials(waiting, id), places_left(waiting, at, id)),
        forall|i: int|
            0 <= i < places_left(waiting, at, id).len() ==> #[trigger] places_left(
                waiting,
                at,
                id,
            )[i] <= at.last(),
    decreases waiting.len(),
{
    if waiting.len() > 0 {
        let w = waiting.drop_last();
        let a = at.drop_last();
        assert(waits_in_order(all, w, a)) by {
            assert forall|i: int| 0 <= i < a.len() implies 0 <= #[trigger] a[i] < all.len()
                && all[a[i]] == w[i] && newest(all, a[i]) by {
                assert(a[i] == at[i]);
            }
            assert forall|i: int, j: int| 0 <= i < j < a.len() implies #[trigger] a[i]
                < #[trigger] a[j] by {
                assert(at[i] < at[j]);
            }
        }
        lemma_places_left(all, w, a, id);
        let left = places_left(w, a, id);
        let kept = without_partials(w, id);
        let last = at.len() - 1;
        assert forall|i: int| 0 <= i < left.len() implies #[trigger] left[i] < at[last] by {
            assert(a.len() > 0) by {
                if w.len() == 0 {
                    assert(left.len() == 0);
                }
            }
            assert(left[i] <= a[a.len() - 1]);
            assert(at[last - 1] < at[last]);
        }
        if !is_partial_of(waiting.last(), id) {
            let r = left.push(at.last());
            assert(newest(all, at[last]));
            assert forall|i: int| 0 <= i < r.len() implies 0 <= #[trigger] r[i] < all.len()
                && all[r[i]] == kept.push(waiting.last())[i] && newest(all, r[i]) by {
                if i < left.len() {
                    assert(r[i] == left[i]);
                }
            }
            assert forall|i: int, j: int| 0 <= i < j < r.len() implies #[trigger] r[i]
                < #[trigger] r[j] by {
                assert(r[i] == left[i]);
                if j < left.len() {
                    assert(r[j] == left[j]);
                }
            }
        }
    }
}

proof fn lemma_arrival(all: Seq<JobView>, waiting: Seq<JobView>, at: Seq<int>, job: JobView)
    requires
        waits_in_order(all, waiting, at),
        forall|i: int|
            0 <= i < waiting.len() ==> !is_partial_of(#[trigger] waiting[i], utterance_of(job)),
    ensures
        waits_in_order(all.push(job), waiting.push(job), at.push(all.len() as int)),
        waits_in_order(all.push(job), waiting, at),
{
    let more = all.push(job);
    assert forall|i: int| 0 <= i < at.len() implies newest(more, #[trigger] at[i]) by {
        assert(newest(all, at[i]));
        assert(more[at[i]] == waiting[i]);
        assert(!is_partial_of(waiting[i], utterance_of(job)));
        assert forall|m: int| at[i] < m < more.len() && more[at[i]] is Partial implies
            !is_partial_of(#[trigger] more[m], utterance_of(more[at[i]])) by {
            if m < all.len() {
                assert(more[m] == all[m]);
            }
        }
    }
    let r = at.push(all.len() as int);
    assert forall|i: int| 0 <= i < r.len() implies 0 <= #[trigger] r[i] < more.len()
        && more[r[i]] == waiting.push(job)[i] && newest(more, r[i]) by {
        if i < at.len() {
            assert(r[i] == at[i]);
        }
    }
    assert forall|i: int, j: int| 0 <= i < j < r.len() implies #[trigger] r[i]
        < #[trigger] r[j] by {
        assert(r[i] == at[i]);
        if j < at.len() {
            assert(r[j] == at[j]);
        }
    }
}

/// Whatever comes in and is taken out, and whenever: jobs wait in the order in
/// which they came in, the preview of an utterance that waits is the newest that
/// came in of it, and it waits neither twice nor beside the whole.
pub proof fn law_jobs_wait_in_order(events: Seq<QueueEvent>)
    ensures
        coalesced(queue_after(events)),
        exists|at: Seq<int>| #[trigger]
            waits_in_order(arrived(events), queue_after(events), at),
    decreases events.len(),
{
    let all = arrived(events);
    let now = queue_after(events);
    if events.len() == 0 {
        assert(waits_in_order(all, now, Seq::empty()));
    } else {
        let past = events.drop_last();
        law_jobs_wait_in_order(past);
        let before = queue_after(past);
        let seen = arrived(past);
        let at = choose|at: Seq<int>| #[trigger] waits_in_order(seen, before, at);
        match events.last() {
            QueueEvent::Push(job) => {
                let id = utterance_of(job);
                law_queue_stays_coalesced(before, job);
                if job is Partial && has_final(before, id) {
                    let f = choose|f: int|
                        0 <= f < before.len() && is_final_of(#[trigger] before[f], id);
                    assert forall|i: int| 0 <= i < before.len() implies !is_partial_of(
                        #[trigger] before[i],
                        id,
                    ) by {
                        if is_partial_of(before[i], id) {
                            assert(i != f);
                            assert(!is_partial_of(before[f], id));
                        }
                    }
                    lemma_arrival(seen, before, at, job);
                    assert(waits_in_order(all, now, at));
                } else {
                    lemma_without_partials(before, id);
                    lemma_places_left(seen, before, at, id);
                    let left = places_left(before, at, id);
                    lemma_arrival(seen, without_partials(before, id), left, job);
                    assert(waits_in_order(all, now, left.push(seen.len() as int)));
                }
            },
            QueueEvent::Pop => {
                if before.len() > 0 {
                    let rest = at.drop_first();
                    assert forall|i: int, j: int, k: int|
                        0 <= i < now.len() && 0 <= j < now.len() && i != j
                            && #[trigger] is_partial_of(now[i], k) implies !(
                    #[trigger] is_partial_of(now[j], k)) && !is_final_of(now[j], k) by {
                        assert(now[i] == before[i + 1]);
                        assert(now[j] == before[j + 1]);
                        assert(is_partial_of(before[i + 1], k));
                        assert(!is_partial_of(before[j + 1], k));
                    }
                    assert forall|i: int| 0 <= i < rest.len() implies 0 <= #[trigger] rest[i]
                        < all.len() && all[rest[i]] == now[i] && newest(all, rest[i]) by {
                        assert(rest[i] == at[i + 1]);
                    }
                    assert forall|i: int, j: int| 0 <= i < j < rest.len() implies #[trigger] rest[i]
                        < #[trigger] rest[j] by {
                        assert(at[i + 1] < at[j + 1]);
                    }
                    assert(waits_in_order(all, now, rest));
                } else {
                    assert(waits_in_order(all, now, at));
                }
            },
        }
    }
}

/// What [`JobQueue::push`] and [`JobQueue::pop`] do: a job waits at the end, and the
/// oldest one is taken out first, as it came in.
pub proof fn law_oldest_jobs_are_taken_first(
    queue: &mut JobQueue,
    job: AsrJob,
    other: &mut JobQueue,
    r: Option<AsrJob>,
)
    requires
        call_ensures(JobQueue::push, (queue, job), ()),
        call_ensures(JobQueue::pop, (other,), r),
    ensures
        job is Final ==> final(queue)@.last() == job@ && final(queue)@.len() > 0,
        !has_final(old(queue)@, utterance_of(job@)) ==> final(queue)@.last() == job@,
        old(other)@.len() > 0 ==> (r matches Some(j) && j@ == old(other)@[0] && final(other)@
            == old(other)@.drop_first()),
        old(other)@.len() == 0 ==> r is None,
{
    law_new_jobs_wait_at_the_end(old(queue)@, job@);
}

} // verus!
