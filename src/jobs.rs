use vstd::prelude::*;

use std::collections::HashMap;

verus! {

/// Identity of a job: handed out in increasing order by [`JobsScheduler`] and never
/// reused. It is the only reference to a job's state from outside the runner.
pub type JobId = usize;

/// Frame period that the runner aims for, in microseconds (50 Hz).
pub const TARGET_FRAME_MICROS: u64 = 20_000;

/// Part of each frame left to the work that follows the job runner.
pub const FRAME_MARGIN_MICROS: u64 = 9_000;

/// While less time than this has passed in the current frame, the runner keeps
/// stepping jobs beyond its guaranteed minimum.
pub const FRAME_BUDGET_MICROS: u64 = TARGET_FRAME_MICROS - FRAME_MARGIN_MICROS;

/// Number of steps run each frame whatever the time, unless set otherwise.
pub const DEFAULT_MIN_JOBS: usize = 5;

/// What one step of a job returns.
pub enum WorkResult<W, S, E> {
    /// Not done: step again, possibly within the same frame.
    Continue(W),
    /// Not done: step again, but not before the next frame.
    Skip(W),
    /// Done, with a result for the owner.
    Success(S),
    /// Done, with an error for the owner.
    Error(E),
}

/// Announced once, when the job with this identity finishes.
#[derive(Clone, Copy, Debug, PartialEq, Eq, Structural)]
pub struct JobFinished {
    pub job_id: JobId,
}

/// The caller's reference to a job that it added.
#[derive(Clone, Copy, Debug, PartialEq, Eq, Structural)]
pub struct JobHandle {
    id: JobId,
}

impl View for JobHandle {
    type V = JobId;

    closed spec fn view(&self) -> JobId {
        self.id
    }
}

impl JobHandle {
    pub fn id(&self) -> (r: JobId)
        ensures
            r == self@,
    {
        self.id
    }
}

/// A job: its priority (a lower number runs sooner), identity, current work value
/// and the host's handle on its step callable.
pub struct RunningJob<W, J> {
    pub priority: isize,
    pub id: JobId,
    pub work: W,
    pub job: J,
}

/// A job as staged by the scheduler, before the runner admits it.
pub type UnstartedJob<W, J> = RunningJob<W, J>;

/// A job taken out of the queue for one step, without its work value, which the
/// host hands to the step callable.
pub struct JobTicket<J> {
    pub priority: isize,
    pub id: JobId,
    pub job: J,
}

/// Where a job went after a step.
pub enum StepOutcome<J> {
    /// Back in the queue.
    Requeued,
    /// Held back until the next frame.
    Skipped,
    /// Cancelled during its step: its step callable is handed back for teardown
    /// when the next frame begins.
    Cancelled,
    /// Finished: the event to announce, and the step callable to tear down.
    Finished(JobFinished, J),
}

/// Position `i` holds a job with the lowest priority number of `s`.
pub open spec fn is_lowest<W, J>(s: Seq<RunningJob<W, J>>, i: int) -> bool {
    &&& 0 <= i < s.len()
    &&& forall|k: int| 0 <= k < s.len() ==> s[i].priority <= #[trigger] s[k].priority
}

/// One more, saturating at the largest `usize`.
pub open spec fn saturating_inc(n: usize) -> usize {
    if n < usize::MAX {
        (n + 1) as usize
    } else {
        n
    }
}

/// Intake: hands out identities and stages new jobs until the runner admits them.
pub struct JobsScheduler<W, J> {
    id_gen: JobId,
    floor: JobId,
    unstarted: Vec<UnstartedJob<W, J>>,
}

impl<W, J> JobsScheduler<W, J> {
    /// The identity that the next added job gets.
    pub closed spec fn next_id(&self) -> JobId {
        self.id_gen
    }

    /// The staged jobs, oldest first.
    pub closed spec fn pending(&self) -> Seq<UnstartedJob<W, J>> {
        self.unstarted@
    }

    /// The staged jobs carry increasing identities, from the admission floor up to
    /// below the next identity.
    pub closed spec fn wf(&self) -> bool {
        &&& self.floor <= self.id_gen
        &&& forall|i: int|
            0 <= i < self.unstarted@.len() ==> self.floor <= #[trigger] self.unstarted@[i].id
                < self.id_gen
        &&& forall|i: int, k: int|
            0 <= i < k < self.unstarted@.len() ==> #[trigger] self.unstarted@[i].id
                < #[trigger] self.unstarted@[k].id
    }

    /// No staged job has an identity below this: the next identity as it stood when
    /// the runner last admitted the staged jobs.
    pub closed spec fn first_pending_spec(&self) -> JobId {
        self.floor
    }

    pub fn new() -> (r: Self)
        ensures
            r.wf(),
            r.next_id() == 0,
            r.first_pending_spec() == 0,
            r.pending() == Seq::<UnstartedJob<W, J>>::empty(),
    {
        JobsScheduler { id_gen: 0, floor: 0, unstarted: Vec::new() }
    }

    /// No identity repeats among the staged jobs.
    pub proof fn lemma_pending_distinct(&self)
        requires
            self.wf(),
        ensures
            distinct_ids(self.pending()),
            forall|id: JobId| #[trigger]
                has_id(self.pending(), id) ==> self.first_pending_spec() <= id < self.next_id(),
    {
        let p = self.unstarted@;
        assert forall|i: int, k: int|
            0 <= i < p.len() && 0 <= k < p.len() && i != k implies #[trigger] p[i].id
                != #[trigger] p[k].id by {
            if i < k {
                assert(p[i].id < p[k].id);
            } else {
                assert(p[k].id < p[i].id);
            }
        }
        assert forall|id: JobId| #[trigger] has_id(p, id) implies self.floor <= id < self.id_gen by {
            let i = choose|i: int| 0 <= i < p.len() && p[i].id == id;
        }
    }

    /// No staged job has an identity below this.
    pub fn first_pending(&self) -> (r: JobId)
        ensures
            r == self.first_pending_spec(),
    {
        self.floor
    }

    /// The identity that the next added job gets.
    pub fn peek_next_id(&self) -> (r: JobId)
        ensures
            r == self.next_id(),
    {
        self.id_gen
    }

    fn take_id(&mut self) -> (r: JobId)
        requires
            old(self).id_gen < usize::MAX,
        ensures
            r == old(self).id_gen,
            final(self).id_gen == old(self).id_gen + 1,
            final(self).floor == old(self).floor,
            final(self).unstarted == old(self).unstarted,
    {
        let out = self.id_gen;
        self.id_gen = self.id_gen + 1;
        out
    }

    /// Stages a job with the given priority (any value; a lower one runs sooner),
    /// initial work value and step callable, under a fresh identity.
    pub fn add(&mut self, priority: isize, initial: W, job: J) -> (h: JobHandle)
        requires
            old(self).wf(),
            old(self).next_id() < usize::MAX,
        ensures
            final(self).wf(),
            h@ == old(self).next_id(),
            final(self).next_id() == old(self).next_id() + 1,
            final(self).first_pending_spec() == old(self).first_pending_spec(),
            final(self).pending() == old(self).pending().push(
                (RunningJob { priority, id: old(self).next_id(), work: initial, job }),
            ),
    {
        let id = self.take_id();
        self.unstarted.push(RunningJob { priority, id, work: initial, job });
        JobHandle { id }
    }
}

/// Terminal results, keyed by job identity, until their owner claims them.
pub struct FinishedJobs<S, E> {
    finished: HashMap<JobId, Result<S, E>>,
}

impl<S, E> View for FinishedJobs<S, E> {
    type V = Map<JobId, Result<S, E>>;

    closed spec fn view(&self) -> Map<JobId, Result<S, E>> {
        self.finished@
    }
}

impl<S, E> FinishedJobs<S, E> {
    pub fn new() -> (r: Self)
        ensures
            r@ == Map::<JobId, Result<S, E>>::empty(),
    {
        FinishedJobs { finished: HashMap::new() }
    }

    /// Whether a result for this identity waits to be claimed.
    pub fn contains(&self, id: JobId) -> (r: bool)
        ensures
            r == self@.contains_key(id),
    {
        broadcast use vstd::std_specs::hash::group_hash_axioms;

        self.finished.contains_key(&id)
    }

    /// Stores the terminal result of a job, replacing any result stored under the
    /// same identity.
    pub fn insert(&mut self, id: JobId, result: Result<S, E>)
        ensures
            final(self)@ == old(self)@.insert(id, result),
    {
        broadcast use vstd::std_specs::hash::group_hash_axioms;

        let _ = self.finished.insert(id, result);
    }

    /// `post` is `pre` after claiming the result of the job `id`, and `r` is what
    /// the claim returned: the stored result, if there was one.
    pub open spec fn claim_effect(pre: Self, post: Self, id: JobId, r: Option<Result<S, E>>) -> bool {
        &&& r == (if pre@.contains_key(id) {
            Some(pre@[id])
        } else {
            None::<Result<S, E>>
        })
        &&& post@ == pre@.remove(id)
    }

    /// Removes and returns the result of the job, if it finished and was not
    /// claimed yet.
    pub fn try_claim(&mut self, job: &JobHandle) -> (r: Option<Result<S, E>>)
        ensures
            Self::claim_effect(*old(self), *final(self), job@, r),
    {
        broadcast use vstd::std_specs::hash::group_hash_axioms;

        let r = self.finished.remove(&job.id);
        proof {
            if r is None {
                assert(self@ =~= old(self)@.remove(job@));
            }
        }
        r
    }
}

/// Some job of `s` has the identity `id`.
pub open spec fn has_id<W, J>(s: Seq<RunningJob<W, J>>, id: JobId) -> bool {
    exists|i: int| 0 <= i < s.len() && s[i].id == id
}

/// No identity occurs twice in `s`.
pub open spec fn distinct_ids<W, J>(s: Seq<RunningJob<W, J>>) -> bool {
    forall|i: int, k: int|
        0 <= i < s.len() && 0 <= k < s.len() && i != k ==> #[trigger] s[i].id != #[trigger] s[k].id
}

proof fn lemma_has_id_push<W, J>(s: Seq<RunningJob<W, J>>, x: RunningJob<W, J>)
    ensures
        forall|id: JobId| #[trigger] has_id(s.push(x), id) == (has_id(s, id) || x.id == id),
{
    let t = s.push(x);
    assert forall|id: JobId| #[trigger] has_id(t, id) == (has_id(s, id) || x.id == id) by {
        if has_id(s, id) {
            let i = choose|i: int| 0 <= i < s.len() && s[i].id == id;
            assert(t[i] == s[i]);
        }
        if x.id == id {
            assert(t[s.len() as int] == x);
        }
        if has_id(t, id) && x.id != id {
            let i = choose|i: int| 0 <= i < t.len() && t[i].id == id;
            assert(t[i] == s[i]);
        }
    }
}

proof fn lemma_has_id_remove<W, J>(s: Seq<RunningJob<W, J>>, i: int)
    requires
        distinct_ids(s),
        0 <= i < s.len(),
    ensures
        forall|id: JobId| #[trigger]
            has_id(s.remove(i), id) == (has_id(s, id) && id != s[i].id),
        distinct_ids(s.remove(i)),
{
    let t = s.remove(i);
    assert forall|a: int| 0 <= a < t.len() implies #[trigger] t[a] == s[if a < i {
        a
    } else {
        a + 1
    }] by {}
    assert forall|id: JobId| #[trigger] has_id(t, id) == (has_id(s, id) && id != s[i].id) by {
        if has_id(t, id) {
            let a = choose|a: int| 0 <= a < t.len() && t[a].id == id;
            let sa = if a < i { a } else { a + 1 };
            assert(t[a] == s[sa]);
        }
        if has_id(s, id) && id != s[i].id {
            let b = choose|b: int| 0 <= b < s.len() && s[b].id == id;
            let a = if b < i { b } else { b - 1 };
            assert(t[a] == s[b]);
        }
    }
    assert forall|a: int, b: int|
        0 <= a < t.len() && 0 <= b < t.len() && a != b implies #[trigger] t[a].id
            != #[trigger] t[b].id by {
        let sa = if a < i { a } else { a + 1 };
        let sb = if b < i { b } else { b + 1 };
        assert(t[a] == s[sa]);
        assert(t[b] == s[sb]);
    }
}

proof fn lemma_has_id_append<W, J>(a: Seq<RunningJob<W, J>>, b: Seq<RunningJob<W, J>>)
    ensures
        forall|id: JobId| #[trigger] has_id(a + b, id) == (has_id(a, id) || has_id(b, id)),
{
    let t = a + b;
    assert forall|id: JobId| #[trigger] has_id(t, id) == (has_id(a, id) || has_id(b, id)) by {
        if has_id(a, id) {
            let i = choose|i: int| 0 <= i < a.len() && a[i].id == id;
            assert(t[i] == a[i]);
        }
        if has_id(b, id) {
            let i = choose|i: int| 0 <= i < b.len() && b[i].id == id;
            assert(t[a.len() + i] == b[i]);
        }
        if has_id(t, id) && !has_id(a, id) {
            let i = choose|i: int| 0 <= i < t.len() && t[i].id == id;
            if i < a.len() {
                assert(t[i] == a[i]);
            } else {
                assert(t[i] == b[i - a.len()]);
            }
        }
    }
}

proof fn lemma_distinct_push<W, J>(s: Seq<RunningJob<W, J>>, x: RunningJob<W, J>)
    requires
        distinct_ids(s),
        !has_id(s, x.id),
    ensures
        distinct_ids(s.push(x)),
{
    let t = s.push(x);
    assert forall|i: int, k: int|
        0 <= i < t.len() && 0 <= k < t.len() && i != k implies #[trigger] t[i].id
            != #[trigger] t[k].id by {
        if i < s.len() {
            assert(t[i] == s[i]);
        }
        if k < s.len() {
            assert(t[k] == s[k]);
        }
    }
}

proof fn lemma_distinct_append<W, J>(a: Seq<RunningJob<W, J>>, b: Seq<RunningJob<W, J>>)
    requires
        distinct_ids(a),
        distinct_ids(b),
        forall|id: JobId| has_id(a, id) ==> !has_id(b, id),
    ensures
        distinct_ids(a + b),
{
    let t = a + b;
    assert forall|i: int, k: int|
        0 <= i < t.len() && 0 <= k < t.len() && i != k implies #[trigger] t[i].id
            != #[trigger] t[k].id by {
        if i < a.len() && k >= a.len() {
            assert(t[i] == a[i]);
            assert(t[k] == b[k - a.len()]);
            assert(has_id(a, a[i].id));
            assert(has_id(b, b[k - a.len()].id));
        } else if i >= a.len() && k < a.len() {
            assert(t[k] == a[k]);
            assert(t[i] == b[i - a.len()]);
            assert(has_id(a, a[k].id));
            assert(has_id(b, b[i - a.len()].id));
        } else if i < a.len() {
            assert(t[i] == a[i] && t[k] == a[k]);
        } else {
            assert(t[i] == b[i - a.len()] && t[k] == b[k - a.len()]);
        }
    }
}

/// The running jobs: a priority queue, the jobs held back until the next frame,
/// and the jobs cancelled since the last frame began.
pub struct Jobs<W, J> {
    min_jobs: usize,
    jobs: Vec<RunningJob<W, J>>,
    skipped: Vec<RunningJob<W, J>>,
    to_cancel: Vec<RunningJob<W, J>>,
    steps_this_frame: usize,
    in_flight: Option<JobId>,
    cancel_in_flight: bool,
    admitted_below: JobId,
}

impl<W, J> Jobs<W, J> {
    /// Number of steps run each frame whatever the time.
    pub closed spec fn min_steps(&self) -> usize {
        self.min_jobs
    }

    /// The jobs that may be stepped in this frame.
    pub closed spec fn queue(&self) -> Seq<RunningJob<W, J>> {
        self.jobs@
    }

    /// The jobs that returned `Skip` in this frame.
    pub closed spec fn skip_buffer(&self) -> Seq<RunningJob<W, J>> {
        self.skipped@
    }

    /// The jobs cancelled since the frame began, whose step callables await teardown.
    pub closed spec fn cancel_list(&self) -> Seq<RunningJob<W, J>> {
        self.to_cancel@
    }

    /// Steps handed out since the frame began.
    pub closed spec fn steps(&self) -> usize {
        self.steps_this_frame
    }

    /// The job whose step is running, if any.
    pub closed spec fn in_flight(&self) -> Option<JobId> {
        self.in_flight
    }

    /// The job in flight was cancelled during its step.
    pub closed spec fn in_flight_cancelled(&self) -> bool {
        self.cancel_in_flight
    }

    /// Every job admitted so far has an identity below this.
    pub closed spec fn id_bound(&self) -> JobId {
        self.admitted_below
    }

    /// The runner holds this job, in its queue or its skip buffer.
    pub open spec fn holds(&self, id: JobId) -> bool {
        has_id(self.queue(), id) || has_id(self.skip_buffer(), id)
    }

    /// Identities are distinct across queue, skip buffer and the job in flight, and
    /// all lie below the admission bound.
    pub closed spec fn wf(&self) -> bool {
        let q = self.jobs@;
        let s = self.skipped@;
        &&& distinct_ids(q)
        &&& distinct_ids(s)
        &&& forall|id: JobId| #[trigger] has_id(q, id) ==> !has_id(s, id)
        &&& forall|id: JobId| #[trigger] has_id(q, id) ==> id < self.admitted_below
        &&& forall|id: JobId| #[trigger] has_id(s, id) ==> id < self.admitted_below
        &&& self.in_flight matches Some(f) ==> f < self.admitted_below && !has_id(q, f) && !has_id(
            s,
            f,
        )
        &&& self.cancel_in_flight ==> self.in_flight is Some
    }

    /// What well-formedness gives a caller: no identity repeats in the queue or in
    /// the skip buffer, no job is in both, every held identity lies below the
    /// admission bound, and the job in flight is not held.
    pub proof fn lemma_wf_facts(&self)
        requires
            self.wf(),
        ensures
            distinct_ids(self.queue()),
            distinct_ids(self.skip_buffer()),
            forall|id: JobId| #[trigger]
                has_id(self.queue(), id) ==> !has_id(self.skip_buffer(), id),
            forall|id: JobId| #[trigger] self.holds(id) ==> id < self.id_bound(),
            self.in_flight() matches Some(f) ==> f < self.id_bound() && !self.holds(f),
            self.in_flight_cancelled() ==> self.in_flight() is Some,
    {
    }

    /// Whether, with `time_micros` spent in the frame so far, the runner takes another
    /// step: while the queue holds a job, the first `min_jobs` steps of a frame run
    /// whatever the time, and later ones only while the frame budget lasts.
    pub open spec fn should_step(&self, time_micros: u64) -> bool {
        &&& self.queue().len() > 0
        &&& (self.steps() < self.min_steps() || time_micros < FRAME_BUDGET_MICROS)
    }

    pub fn new() -> (r: Self)
        ensures
            r.wf(),
            r.min_steps() == DEFAULT_MIN_JOBS,
            r.queue() == Seq::<RunningJob<W, J>>::empty(),
            r.skip_buffer() == Seq::<RunningJob<W, J>>::empty(),
            r.cancel_list() == Seq::<RunningJob<W, J>>::empty(),
            r.steps() == 0,
            r.in_flight() is None,
            r.id_bound() == 0,
    {
        Jobs {
            min_jobs: DEFAULT_MIN_JOBS,
            jobs: Vec::new(),
            skipped: Vec::new(),
            to_cancel: Vec::new(),
            steps_this_frame: 0,
            in_flight: None,
            cancel_in_flight: false,
            admitted_below: 0,
        }
    }

    /// `post` is `pre` after a step was handed out for the job `t` with work `w`:
    /// a job with the lowest priority number left the queue.
    pub open spec fn took_step(pre: Self, post: Self, t: JobTicket<J>, w: W) -> bool {
        &&& exists|i: int|
            is_lowest(pre.queue(), i) && pre.queue()[i] == (RunningJob {
                priority: t.priority,
                id: t.id,
                work: w,
                job: t.job,
            }) && post.queue() == pre.queue().remove(i)
        &&& post.skip_buffer() == pre.skip_buffer()
        &&& post.cancel_list() == pre.cancel_list()
        &&& post.in_flight() == Some(t.id)
        &&& !post.in_flight_cancelled()
        &&& post.steps() == saturating_inc(pre.steps())
        &&& post.min_steps() == pre.min_steps()
        &&& post.id_bound() == pre.id_bound()
    }

    /// `post` and `fin_post` are `pre` and `fin_pre` after the step of the job `t`
    /// returned `result`, and `r` is what `finish_step` handed back.
    pub open spec fn finish_effect<S, E>(
        pre: Self,
        post: Self,
        fin_pre: FinishedJobs<S, E>,
        fin_post: FinishedJobs<S, E>,
        ticket: JobTicket<J>,
        result: WorkResult<W, S, E>,
        r: StepOutcome<J>,
    ) -> bool {
        &&& post.steps() == pre.steps()
        &&& post.min_steps() == pre.min_steps()
        &&& match result {
            WorkResult::Continue(w) => if pre.in_flight_cancelled() {
                &&& post.cancel_list() == pre.cancel_list().push(
                    (RunningJob { priority: ticket.priority, id: ticket.id, work: w, job: ticket.job }),
                )
                &&& post.queue() == pre.queue()
                &&& post.skip_buffer() == pre.skip_buffer()
                &&& fin_post@ == fin_pre@
                &&& r is Cancelled
            } else {
                &&& post.queue() == pre.queue().push(
                    (RunningJob { priority: ticket.priority, id: ticket.id, work: w, job: ticket.job }),
                )
                &&& post.skip_buffer() == pre.skip_buffer()
                &&& post.cancel_list() == pre.cancel_list()
                &&& fin_post@ == fin_pre@
                &&& r is Requeued
            },
            WorkResult::Skip(w) => if pre.in_flight_cancelled() {
                &&& post.cancel_list() == pre.cancel_list().push(
                    (RunningJob { priority: ticket.priority, id: ticket.id, work: w, job: ticket.job }),
                )
                &&& post.queue() == pre.queue()
                &&& post.skip_buffer() == pre.skip_buffer()
                &&& fin_post@ == fin_pre@
                &&& r is Cancelled
            } else {
                &&& post.skip_buffer() == pre.skip_buffer().push(
                    (RunningJob { priority: ticket.priority, id: ticket.id, work: w, job: ticket.job }),
                )
                &&& post.queue() == pre.queue()
                &&& post.cancel_list() == pre.cancel_list()
                &&& fin_post@ == fin_pre@
                &&& r is Skipped
            },
            WorkResult::Success(v) => {
                &&& post.queue() == pre.queue()
                &&& post.cancel_list() == pre.cancel_list()
                &&& post.skip_buffer() == pre.skip_buffer()
                &&& fin_post@ == fin_pre@.insert(ticket.id, Ok(v))
                &&& r == StepOutcome::Finished((JobFinished { job_id: ticket.id }), ticket.job)
            },
            WorkResult::Error(e) => {
                &&& post.queue() == pre.queue()
                &&& post.cancel_list() == pre.cancel_list()
                &&& post.skip_buffer() == pre.skip_buffer()
                &&& fin_post@ == fin_pre@.insert(ticket.id, Err(e))
                &&& r == StepOutcome::Finished((JobFinished { job_id: ticket.id }), ticket.job)
            },
        }
    }

    /// `post` and `spost` are `pre` and `spre` after cancelling the job `id`: if the
    /// runner holds it, or it is staged and not yet admitted, it moves to the cancel
    /// list; if its step is in flight, it is marked so that it goes there when the
    /// step is reported; otherwise nothing changes.
    pub open spec fn cancel_effect(
        pre: Self,
        post: Self,
        spre: JobsScheduler<W, J>,
        spost: JobsScheduler<W, J>,
        id: JobId,
    ) -> bool {
        &&& spost.next_id() == spre.next_id()
        &&& spost.first_pending_spec() == spre.first_pending_spec()
        &&& post.steps() == pre.steps()
        &&& post.in_flight() == pre.in_flight()
        &&& post.min_steps() == pre.min_steps()
        &&& post.id_bound() == pre.id_bound()
        &&& if has_id(pre.queue(), id) {
            exists|i: int|
                0 <= i < pre.queue().len() && pre.queue()[i].id == id && post.queue()
                    == pre.queue().remove(i) && post.cancel_list() == pre.cancel_list().push(
                    pre.queue()[i],
                ) && post.skip_buffer() == pre.skip_buffer() && spost.pending() == spre.pending()
        } else if has_id(pre.skip_buffer(), id) {
            exists|i: int|
                0 <= i < pre.skip_buffer().len() && pre.skip_buffer()[i].id == id
                    && post.skip_buffer() == pre.skip_buffer().remove(i) && post.cancel_list()
                    == pre.cancel_list().push(pre.skip_buffer()[i]) && post.queue()
                    == pre.queue() && spost.pending() == spre.pending()
        } else if pre.in_flight() != Some(id) && has_id(spre.pending(), id) {
            exists|i: int|
                0 <= i < spre.pending().len() && spre.pending()[i].id == id && spost.pending()
                    == spre.pending().remove(i) && post.cancel_list() == pre.cancel_list().push(
                    spre.pending()[i],
                ) && post.queue() == pre.queue() && post.skip_buffer() == pre.skip_buffer()
        } else {
            &&& post.queue() == pre.queue()
            &&& post.skip_buffer() == pre.skip_buffer()
            &&& post.cancel_list() == pre.cancel_list()
            &&& spost.pending() == spre.pending()
        }
        &&& post.in_flight_cancelled() == (pre.in_flight_cancelled() || pre.in_flight() == Some(id))
    }

    /// Number of steps run each frame whatever the time.
    pub fn min_jobs(&self) -> (r: usize)
        ensures
            r == self.min_steps(),
    {
        self.min_jobs
    }

    /// Sets the number of steps run each frame whatever the time.
    pub fn set_min_jobs(&mut self, n: usize)
        requires
            old(self).wf(),
        ensures
            final(self).wf(),
            final(self).min_steps() == n,
            final(self).queue() == old(self).queue(),
            final(self).skip_buffer() == old(self).skip_buffer(),
            final(self).cancel_list() == old(self).cancel_list(),
            final(self).steps() == old(self).steps(),
            final(self).in_flight() == old(self).in_flight(),
            final(self).id_bound() == old(self).id_bound(),
    {
        self.min_jobs = n;
    }

    /// Number of jobs in the queue.
    pub fn len(&self) -> (r: usize)
        ensures
            r == self.queue().len(),
    {
        self.jobs.len()
    }

    /// The job whose step is running, if any.
    pub fn in_flight_job(&self) -> (r: Option<JobId>)
        ensures
            r == self.in_flight(),
    {
        self.in_flight
    }

    /// Every job admitted so far has an identity below this.
    pub fn admitted_below(&self) -> (r: JobId)
        ensures
            r == self.id_bound(),
    {
        self.admitted_below
    }

    /// Starts a frame: hands back the cancelled jobs, whose step callables the host
    /// tears down, and admits every job staged since the last frame.
    pub fn begin_frame(&mut self, scheduler: &mut JobsScheduler<W, J>) -> (torn_down: Vec<
        RunningJob<W, J>,
    >)
        requires
            old(self).wf(),
            old(scheduler).wf(),
            old(self).in_flight() is None,
            old(self).id_bound() <= old(scheduler).first_pending_spec(),
        ensures
            final(self).wf(),
            final(scheduler).wf(),
            forall|id: JobId| #[trigger]
                has_id(old(scheduler).pending(), id) ==> old(self).id_bound() <= id,
            torn_down@ == old(self).cancel_list(),
            final(self).cancel_list() == Seq::<RunningJob<W, J>>::empty(),
            final(self).queue() == old(self).queue() + old(scheduler).pending(),
            final(self).skip_buffer() == old(self).skip_buffer(),
            final(self).steps() == 0,
            final(self).in_flight() is None,
            final(self).min_steps() == old(self).min_steps(),
            final(self).id_bound() == old(scheduler).next_id(),
            final(scheduler).next_id() == old(scheduler).next_id(),
            final(scheduler).first_pending_spec() == old(scheduler).next_id(),
            final(scheduler).pending() == Seq::<UnstartedJob<W, J>>::empty(),
    {
        let mut torn_down = Vec::new();
        std::mem::swap(&mut torn_down, &mut self.to_cancel);
        let ghost q = self.jobs@;
        let ghost p = scheduler.unstarted@;
        let ghost base = scheduler.floor;
        proof {
            assert forall|id: JobId| #[trigger] has_id(p, id) implies base <= id
                < scheduler.id_gen by {
                let i = choose|i: int| 0 <= i < p.len() && p[i].id == id;
            }
            assert forall|i: int, k: int|
                0 <= i < p.len() && 0 <= k < p.len() && i != k implies #[trigger] p[i].id
                    != #[trigger] p[k].id by {
                if i < k {
                    assert(p[i].id < p[k].id);
                } else {
                    assert(p[k].id < p[i].id);
                }
            }
            lemma_has_id_append(q, p);
            lemma_distinct_append(q, p);
        }
        self.jobs.append(&mut scheduler.unstarted);
        scheduler.floor = scheduler.id_gen;
        self.admitted_below = scheduler.id_gen;
        self.steps_this_frame = 0;
        torn_down
    }

    /// Hands out the next step, if the runner takes one (see `should_step`): a job with
    /// the lowest priority number leaves the queue until `finish_step` reports on it.
    pub fn next_step(&mut self, time_micros: u64) -> (r: Option<(JobTicket<J>, W)>)
        requires
            old(self).wf(),
            old(self).in_flight() is None,
        ensures
            final(self).wf(),
            r is Some == old(self).should_step(time_micros),
            r is None ==> *final(self) == *old(self),
            r matches Some(p) ==> Self::took_step(*old(self), *final(self), p.0, p.1),
    {
        if self.jobs.len() == 0 {
            return None;
        }
        if !(self.steps_this_frame < self.min_jobs || time_micros < FRAME_BUDGET_MICROS) {
            return None;
        }
        let best = lowest_index(&self.jobs);
        let ghost q = self.jobs@;
        proof {
            lemma_has_id_remove(q, best as int);
            assert(has_id(q, q[best as int].id));
        }
        let running = self.jobs.remove(best);
        let RunningJob { priority, id, work, job } = running;
        self.in_flight = Some(id);
        if self.steps_this_frame < usize::MAX {
            self.steps_this_frame = self.steps_this_frame + 1;
        }
        let ticket = JobTicket { priority, id, job };
        assert(is_lowest(old(self).queue(), best as int));
        assert(old(self).queue()[best as int] == (RunningJob {
            priority: ticket.priority,
            id: ticket.id,
            work: work,
            job: ticket.job,
        }));
        assert(self.queue() == old(self).queue().remove(best as int));
        Some((ticket, work))
    }

    /// Reports what the step of the job in flight returned. `Continue` puts the job
    /// back in the queue and `Skip` in the skip buffer, with the new work value;
    /// `Success` and `Error` store the result under the job's identity and hand back
    /// the completion event and the step callable to tear down.
    pub fn finish_step<S, E>(
        &mut self,
        ticket: JobTicket<J>,
        result: WorkResult<W, S, E>,
        finished: &mut FinishedJobs<S, E>,
    ) -> (r: StepOutcome<J>)
        requires
            old(self).wf(),
            old(self).in_flight() == Some(ticket.id),
        ensures
            final(self).wf(),
            final(self).in_flight() is None,
            !final(self).in_flight_cancelled(),
            final(self).steps() == old(self).steps(),
            final(self).min_steps() == old(self).min_steps(),
            final(self).id_bound() == old(self).id_bound(),
            Self::finish_effect(*old(self), *final(self), *old(finished), *final(finished), ticket, result, r),
    {
        self.in_flight = None;
        let cancelled = self.cancel_in_flight;
        self.cancel_in_flight = false;
        let JobTicket { priority, id, job } = ticket;
        match result {
            WorkResult::Continue(work) if cancelled => {
                let running = RunningJob { priority, id, work, job };
                self.to_cancel.push(running);
                StepOutcome::Cancelled
            },
            WorkResult::Skip(work) if cancelled => {
                let running = RunningJob { priority, id, work, job };
                self.to_cancel.push(running);
                StepOutcome::Cancelled
            },
            WorkResult::Continue(work) => {
                let running = RunningJob { priority, id, work, job };
                proof {
                    lemma_has_id_push(self.jobs@, running);
                    lemma_distinct_push(self.jobs@, running);
                }
                self.jobs.push(running);
                StepOutcome::Requeued
            },
            WorkResult::Skip(work) => {
                let running = RunningJob { priority, id, work, job };
                proof {
                    lemma_has_id_push(self.skipped@, running);
                    lemma_distinct_push(self.skipped@, running);
                }
                self.skipped.push(running);
                StepOutcome::Skipped
            },
            WorkResult::Success(value) => {
                finished.insert(id, Ok(value));
                StepOutcome::Finished(JobFinished { job_id: id }, job)
            },
            WorkResult::Error(error) => {
                finished.insert(id, Err(error));
                StepOutcome::Finished(JobFinished { job_id: id }, job)
            },
        }
    }

    /// Ends a frame: the jobs that returned `Skip` go back into the queue.
    pub fn end_frame(&mut self)
        requires
            old(self).wf(),
            old(self).in_flight() is None,
        ensures
            final(self).wf(),
            final(self).queue() == old(self).queue() + old(self).skip_buffer(),
            final(self).skip_buffer() == Seq::<RunningJob<W, J>>::empty(),
            final(self).cancel_list() == old(self).cancel_list(),
            final(self).steps() == old(self).steps(),
            final(self).in_flight() is None,
            final(self).min_steps() == old(self).min_steps(),
            final(self).id_bound() == old(self).id_bound(),
    {
        proof {
            lemma_has_id_append(self.jobs@, self.skipped@);
            lemma_distinct_append(self.jobs@, self.skipped@);
        }
        self.jobs.append(&mut self.skipped);
    }

    /// Marks the job for cancellation: no later step runs, and its step callable is
    /// handed back for teardown when the next frame begins. A step in flight is not
    /// stopped; the job is cancelled when the step is reported, unless the step
    /// ended it. A job still staged in `scheduler` leaves it and is never admitted.
    /// A job that is nowhere (finished, already cancelled, or unknown) is left alone.
    pub fn cancel(&mut self, scheduler: &mut JobsScheduler<W, J>, job: &JobHandle)
        requires
            old(self).wf(),
            old(scheduler).wf(),
        ensures
            final(self).wf(),
            final(scheduler).wf(),
            Self::cancel_effect(*old(self), *final(self), *old(scheduler), *final(scheduler), job@),
    {
        let id = job.id;
        match find_id(&self.jobs, id) {
            Some(i) => {
                proof {
                    lemma_has_id_remove(self.jobs@, i as int);
                    assert(has_id(self.jobs@, id));
                }
                let running = self.jobs.remove(i);
                self.to_cancel.push(running);
            },
            None => {
                match find_id(&self.skipped, id) {
                    Some(i) => {
                        proof {
                            lemma_has_id_remove(self.skipped@, i as int);
                            assert(has_id(self.skipped@, id));
                        }
                        let running = self.skipped.remove(i);
                        self.to_cancel.push(running);
                    },
                    None => {
                        if self.in_flight == Some(id) {
                            self.cancel_in_flight = true;
                        } else {
                            match find_id(&scheduler.unstarted, id) {
                                Some(i) => {
                                    let ghost p = scheduler.unstarted@;
                                    proof {
                                        assert(has_id(p, id));
                                    }
                                    let staged = scheduler.unstarted.remove(i);
                                    proof {
                                        let t = scheduler.unstarted@;
                                        assert forall|a: int| 0 <= a < t.len() implies #[trigger] t[a]
                                            == p[if a < i { a } else { a + 1 }] by {}
                                        assert forall|a: int, b: int|
                                            0 <= a < b < t.len() implies #[trigger] t[a].id
                                                < #[trigger] t[b].id by {
                                            let pa = if a < i { a } else { a + 1 };
                                            let pb = if b < i { b } else { b + 1 };
                                            assert(t[a] == p[pa] && t[b] == p[pb]);
                                        }
                                    }
                                    self.to_cancel.push(staged);
                                },
                                None => {},
                            }
                        }
                    },
                }
            },
        }
    }

    /// Marks every job that the runner holds for cancellation.
    pub fn clear_all(&mut self)
        requires
            old(self).wf(),
        ensures
            final(self).wf(),
            final(self).cancel_list() == old(self).cancel_list() + old(self).queue() + old(
                self,
            ).skip_buffer(),
            final(self).queue() == Seq::<RunningJob<W, J>>::empty(),
            final(self).skip_buffer() == Seq::<RunningJob<W, J>>::empty(),
            final(self).steps() == old(self).steps(),
            final(self).in_flight() == old(self).in_flight(),
            final(self).min_steps() == old(self).min_steps(),
            final(self).id_bound() == old(self).id_bound(),
    {
        self.to_cancel.append(&mut self.jobs);
        self.to_cancel.append(&mut self.skipped);
    }
}

/// Marker for the plugin that sets up the job resources: intake, runner and
/// finished-result store.
pub struct JobPlugin;

impl JobPlugin {
    /// The three job resources, empty, with identities starting at zero and the
    /// default minimum of steps per frame.
    pub fn build<W, J, S, E>(&self) -> (r: (JobsScheduler<W, J>, Jobs<W, J>, FinishedJobs<S, E>))
        ensures
            r.0.wf(),
            r.0.next_id() == 0,
            r.0.pending() == Seq::<UnstartedJob<W, J>>::empty(),
            r.1.wf(),
            r.1.min_steps() == DEFAULT_MIN_JOBS,
            r.1.queue() == Seq::<RunningJob<W, J>>::empty(),
            r.1.skip_buffer() == Seq::<RunningJob<W, J>>::empty(),
            r.1.cancel_list() == Seq::<RunningJob<W, J>>::empty(),
            r.1.in_flight() is None,
            r.1.id_bound() == 0,
            r.2@ == Map::<JobId, Result<S, E>>::empty(),
    {
        (JobsScheduler::new(), Jobs::new(), FinishedJobs::new())
    }
}

/// Position of a job with the lowest priority number.
fn lowest_index<W, J>(v: &Vec<RunningJob<W, J>>) -> (r: usize)
    requires
        v@.len() > 0,
    ensures
        is_lowest(v@, r as int),
{
    let mut best: usize = 0;
    let mut k: usize = 1;
    while k < v.len()
        invariant
            best < v@.len(),
            1 <= k <= v@.len(),
            forall|m: int| 0 <= m < k ==> v@[best as int].priority <= #[trigger] v@[m].priority,
        decreases v@.len() - k,
    {
        if v[k].priority < v[best].priority {
            best = k;
        }
        k = k + 1;
    }
    best
}

/// Position of the job with identity `id`, if any.
fn find_id<W, J>(v: &Vec<RunningJob<W, J>>, id: JobId) -> (r: Option<usize>)
    ensures
        r matches Some(i) ==> i < v@.len() && v@[i as int].id == id,
        r is None ==> !has_id(v@, id),
{
    let mut i: usize = 0;
    while i < v.len()
        invariant
            i <= v@.len(),
            forall|m: int| 0 <= m < i ==> v@[m].id != id,
        decreases v@.len() - i,
    {
        if v[i].id == id {
            return Some(i);
        }
        i = i + 1;
    }
    None
}

/// A result can be claimed once: a second claim of the same job returns nothing.
pub proof fn claim_is_once<S, E>(
    f0: FinishedJobs<S, E>,
    f1: FinishedJobs<S, E>,
    f2: FinishedJobs<S, E>,
    id: JobId,
    r1: Option<Result<S, E>>,
    r2: Option<Result<S, E>>,
)
    requires
        FinishedJobs::claim_effect(f0, f1, id, r1),
        FinishedJobs::claim_effect(f1, f2, id, r2),
    ensures
        r2 is None,
{
}

/// Within a frame the runner steps jobs in priority order: after a step of the
/// job `t1`, whatever it returned, the next step goes to a job whose priority
/// number is not lower.
pub proof fn steps_follow_priority<W, J, S, E>(
    s0: Jobs<W, J>,
    s1: Jobs<W, J>,
    s2: Jobs<W, J>,
    s3: Jobs<W, J>,
    f1: FinishedJobs<S, E>,
    f2: FinishedJobs<S, E>,
    t1: JobTicket<J>,
    w1: W,
    result: WorkResult<W, S, E>,
    r: StepOutcome<J>,
    t2: JobTicket<J>,
    w2: W,
)
    requires
        Jobs::took_step(s0, s1, t1, w1),
        Jobs::finish_effect(s1, s2, f1, f2, t1, result, r),
        Jobs::took_step(s2, s3, t2, w2),
    ensures
        t1.priority <= t2.priority,
{
    let i1 = choose|i: int|
        is_lowest(s0.queue(), i) && s0.queue()[i] == (RunningJob {
            priority: t1.priority,
            id: t1.id,
            work: w1,
            job: t1.job,
        }) && s1.queue() == s0.queue().remove(i);
    let i2 = choose|i: int|
        is_lowest(s2.queue(), i) && s2.queue()[i] == (RunningJob {
            priority: t2.priority,
            id: t2.id,
            work: w2,
            job: t2.job,
        }) && s3.queue() == s2.queue().remove(i);
    let q0 = s0.queue();
    let q1 = s1.queue();
    assert forall|a: int| 0 <= a < q1.len() implies t1.priority <= #[trigger] q1[a].priority by {
        let b = if a < i1 { a } else { a + 1 };
        assert(q1[a] == q0[b]);
        assert(q0[i1].priority <= q0[b].priority);
    }
    if i2 < q1.len() {
        assert(s2.queue()[i2] == q1[i2]);
    }
}

/// A frame's first `min_jobs` steps run whatever the time: while fewer steps than
/// that were taken and the queue holds a job, the runner takes another, even when
/// the frame budget is already spent.
pub proof fn minimum_steps_run<W, J>(s: Jobs<W, J>, time_micros: u64)
    requires
        s.steps() < s.min_steps(),
        s.queue().len() > 0,
    ensures
        s.should_step(time_micros),
{
}

/// A step takes at most one job out of the queue: after a step and its report,
/// the queue is shorter by at most one, and handing out the step counted it.
/// These are the per-step facts that `frame_runs_minimum` takes.
pub proof fn step_removes_at_most_one<W, J, S, E>(
    s0: Jobs<W, J>,
    s1: Jobs<W, J>,
    s2: Jobs<W, J>,
    f1: FinishedJobs<S, E>,
    f2: FinishedJobs<S, E>,
    t: JobTicket<J>,
    w: W,
    result: WorkResult<W, S, E>,
    r: StepOutcome<J>,
)
    requires
        Jobs::took_step(s0, s1, t, w),
        Jobs::finish_effect(s1, s2, f1, f2, t, result, r),
    ensures
        s2.queue().len() + 1 >= s0.queue().len(),
        s1.steps() == saturating_inc(s0.steps()),
        s2.steps() == saturating_inc(s0.steps()),
        s2.min_steps() == s0.min_steps(),
{
    let i = choose|i: int|
        is_lowest(s0.queue(), i) && s0.queue()[i] == (RunningJob {
            priority: t.priority,
            id: t.id,
            work: w,
            job: t.job,
        }) && s1.queue() == s0.queue().remove(i);
}

/// A frame runs at least the smaller of `min_jobs` and the number of jobs queued
/// when it began, whatever the time: `frame` lists the runner's states from the
/// start of the frame, each following the one before by a step and its report
/// (the facts `step_removes_at_most_one` gives), and the frame ends where the
/// runner takes no further step.
pub proof fn frame_runs_minimum<W, J>(frame: Seq<Jobs<W, J>>, time_micros: u64)
    requires
        frame.len() >= 1,
        frame[0].steps() == 0,
        forall|k: int|
            0 <= k < frame.len() - 1 ==> {
                &&& #[trigger] frame[k + 1].queue().len() + 1 >= frame[k].queue().len()
                &&& frame[k + 1].steps() == saturating_inc(frame[k].steps())
                &&& frame[k + 1].min_steps() == frame[k].min_steps()
            },
        !frame[frame.len() - 1].should_step(time_micros),
    ensures
        frame.len() - 1 >= frame[0].min_steps() || frame.len() - 1 >= frame[0].queue().len(),
{
    lemma_frame_prefix(frame, frame.len() - 1);
}

proof fn lemma_frame_prefix<W, J>(frame: Seq<Jobs<W, J>>, k: int)
    requires
        0 <= k < frame.len(),
        frame[0].steps() == 0,
        forall|j: int|
            0 <= j < frame.len() - 1 ==> {
                &&& #[trigger] frame[j + 1].queue().len() + 1 >= frame[j].queue().len()
                &&& frame[j + 1].steps() == saturating_inc(frame[j].steps())
                &&& frame[j + 1].min_steps() == frame[j].min_steps()
            },
    ensures
        frame[k].queue().len() + k >= frame[0].queue().len(),
        frame[k].min_steps() == frame[0].min_steps(),
        frame[k].steps() == (if k < usize::MAX { k } else { usize::MAX as int }),
    decreases k,
{
    if k > 0 {
        lemma_frame_prefix(frame, k - 1);
        assert(frame[(k - 1) + 1].queue().len() + 1 >= frame[k - 1].queue().len());
    }
}

/// A job held back by `Skip` is not stepped again in the same frame: no step is
/// handed out for it, and it stays in the skip buffer, until the frame ends.
pub proof fn skipped_job_waits<W, J, S, E>(
    s0: Jobs<W, J>,
    s1: Jobs<W, J>,
    s2: Jobs<W, J>,
    f1: FinishedJobs<S, E>,
    f2: FinishedJobs<S, E>,
    t: JobTicket<J>,
    w: W,
    result: WorkResult<W, S, E>,
    r: StepOutcome<J>,
    id: JobId,
)
    requires
        s0.wf(),
        has_id(s0.skip_buffer(), id),
        Jobs::took_step(s0, s1, t, w),
        Jobs::finish_effect(s1, s2, f1, f2, t, result, r),
    ensures
        t.id != id,
        has_id(s1.skip_buffer(), id),
        has_id(s2.skip_buffer(), id),
{
    let i = choose|i: int|
        is_lowest(s0.queue(), i) && s0.queue()[i] == (RunningJob {
            priority: t.priority,
            id: t.id,
            work: w,
            job: t.job,
        }) && s1.queue() == s0.queue().remove(i);
    assert(has_id(s0.queue(), t.id));
    lemma_has_id_push(
        s1.skip_buffer(),
        RunningJob { priority: t.priority, id: t.id, work: w, job: t.job },
    );
    if let WorkResult::Skip(w2) = result {
        lemma_has_id_push(
            s1.skip_buffer(),
            RunningJob { priority: t.priority, id: t.id, work: w2, job: t.job },
        );
    }
}

/// A job completes once: after a step that ends it, the runner holds it no more,
/// so no later step can end it again, and its result waits under its identity.
pub proof fn completion_is_once<W, J, S, E>(
    s0: Jobs<W, J>,
    s1: Jobs<W, J>,
    f0: FinishedJobs<S, E>,
    f1: FinishedJobs<S, E>,
    t: JobTicket<J>,
    result: WorkResult<W, S, E>,
    r: StepOutcome<J>,
)
    requires
        s0.wf(),
        s0.in_flight() == Some(t.id),
        result is Success || result is Error,
        Jobs::finish_effect(s0, s1, f0, f1, t, result, r),
    ensures
        !s1.holds(t.id),
        f1@.contains_key(t.id),
        r == StepOutcome::Finished((JobFinished { job_id: t.id }), t.job),
{
}

/// Cancelling is idempotent: cancelling a job a second time changes nothing, and
/// the other jobs stay where they were.
pub proof fn cancel_is_idempotent<W, J>(
    s0: Jobs<W, J>,
    s1: Jobs<W, J>,
    s2: Jobs<W, J>,
    sc0: JobsScheduler<W, J>,
    sc1: JobsScheduler<W, J>,
    sc2: JobsScheduler<W, J>,
    id: JobId,
)
    requires
        s0.wf(),
        sc0.wf(),
        s0.id_bound() <= sc0.first_pending_spec(),
        Jobs::cancel_effect(s0, s1, sc0, sc1, id),
        Jobs::cancel_effect(s1, s2, sc1, sc2, id),
    ensures
        sc2.pending() == sc1.pending(),
        s2.queue() == s1.queue(),
        s2.skip_buffer() == s1.skip_buffer(),
        s2.cancel_list() == s1.cancel_list(),
        s2.in_flight_cancelled() == s1.in_flight_cancelled(),
        forall|other: JobId| other != id ==> (#[trigger] s1.holds(other) == s0.holds(other)),
{
    sc0.lemma_pending_distinct();
    if has_id(s0.queue(), id) {
        let i = choose|i: int|
            0 <= i < s0.queue().len() && s0.queue()[i].id == id && s1.queue() == s0.queue().remove(
                i,
            ) && s1.cancel_list() == s0.cancel_list().push(s0.queue()[i]) && s1.skip_buffer()
                == s0.skip_buffer();
        lemma_has_id_remove(s0.queue(), i);
    } else if has_id(s0.skip_buffer(), id) {
        let i = choose|i: int|
            0 <= i < s0.skip_buffer().len() && s0.skip_buffer()[i].id == id && s1.skip_buffer()
                == s0.skip_buffer().remove(i) && s1.cancel_list() == s0.cancel_list().push(
                s0.skip_buffer()[i],
            ) && s1.queue() == s0.queue();
        lemma_has_id_remove(s0.skip_buffer(), i);
    } else if s0.in_flight() != Some(id) && has_id(sc0.pending(), id) {
        let i = choose|i: int|
            0 <= i < sc0.pending().len() && sc0.pending()[i].id == id && sc1.pending()
                == sc0.pending().remove(i) && s1.cancel_list() == s0.cancel_list().push(
                sc0.pending()[i],
            ) && s1.queue() == s0.queue() && s1.skip_buffer() == s0.skip_buffer();
        lemma_has_id_remove(sc0.pending(), i);
    }
}

/// A cancelled job is never stepped again: afterwards neither the runner nor the
/// staged jobs hold it, so no later admission brings it back.
pub proof fn cancelled_job_is_gone<W, J>(
    s0: Jobs<W, J>,
    s1: Jobs<W, J>,
    sc0: JobsScheduler<W, J>,
    sc1: JobsScheduler<W, J>,
    id: JobId,
)
    requires
        s0.wf(),
        sc0.wf(),
        s0.id_bound() <= sc0.first_pending_spec(),
        s0.in_flight() != Some(id),
        Jobs::cancel_effect(s0, s1, sc0, sc1, id),
    ensures
        !s1.holds(id),
        !has_id(sc1.pending(), id),
{
    sc0.lemma_pending_distinct();
    if has_id(s0.queue(), id) {
        let i = choose|i: int|
            0 <= i < s0.queue().len() && s0.queue()[i].id == id && s1.queue() == s0.queue().remove(
                i,
            ) && s1.cancel_list() == s0.cancel_list().push(s0.queue()[i]) && s1.skip_buffer()
                == s0.skip_buffer() && sc1.pending() == sc0.pending();
        lemma_has_id_remove(s0.queue(), i);
    } else if has_id(s0.skip_buffer(), id) {
        let i = choose|i: int|
            0 <= i < s0.skip_buffer().len() && s0.skip_buffer()[i].id == id && s1.skip_buffer()
                == s0.skip_buffer().remove(i) && s1.cancel_list() == s0.cancel_list().push(
                s0.skip_buffer()[i],
            ) && s1.queue() == s0.queue() && sc1.pending() == sc0.pending();
        lemma_has_id_remove(s0.skip_buffer(), i);
    } else if has_id(sc0.pending(), id) {
        let i = choose|i: int|
            0 <= i < sc0.pending().len() && sc0.pending()[i].id == id && sc1.pending()
                == sc0.pending().remove(i) && s1.cancel_list() == s0.cancel_list().push(
                sc0.pending()[i],
            ) && s1.queue() == s0.queue() && s1.skip_buffer() == s0.skip_buffer();
        lemma_has_id_remove(sc0.pending(), i);
    }
}

/// Cancelling a job that the runner does not hold, such as one that already
/// completed, changes nothing.
pub proof fn cancel_of_absent_job_is_noop<W, J>(
    s0: Jobs<W, J>,
    s1: Jobs<W, J>,
    sc0: JobsScheduler<W, J>,
    sc1: JobsScheduler<W, J>,
    id: JobId,
)
    requires
        !s0.holds(id),
        s0.in_flight() != Some(id),
        !has_id(sc0.pending(), id),
        Jobs::cancel_effect(s0, s1, sc0, sc1, id),
    ensures
        sc1.pending() == sc0.pending(),
        s1.in_flight_cancelled() == s0.in_flight_cancelled(),
        s1.queue() == s0.queue(),
        s1.skip_buffer() == s0.skip_buffer(),
        s1.cancel_list() == s0.cancel_list(),
        s1.in_flight() == s0.in_flight(),
        s1.steps() == s0.steps(),
{
}

/// Cancelling a job during its step takes effect when the step is reported: unless
/// the step ended the job, it goes to the cancel list instead of back to the queue
/// or the skip buffer, so no later step runs.
pub proof fn cancel_in_flight_takes_effect<W, J, S, E>(
    s0: Jobs<W, J>,
    s1: Jobs<W, J>,
    s2: Jobs<W, J>,
    sc0: JobsScheduler<W, J>,
    sc1: JobsScheduler<W, J>,
    f1: FinishedJobs<S, E>,
    f2: FinishedJobs<S, E>,
    t: JobTicket<J>,
    result: WorkResult<W, S, E>,
    r: StepOutcome<J>,
)
    requires
        s0.wf(),
        s0.in_flight() == Some(t.id),
        Jobs::cancel_effect(s0, s1, sc0, sc1, t.id),
        Jobs::finish_effect(s1, s2, f1, f2, t, result, r),
    ensures
        !s2.holds(t.id),
        (result is Continue || result is Skip) ==> r is Cancelled && has_id(
            s2.cancel_list(),
            t.id,
        ),
{
    assert(!has_id(s0.queue(), t.id) && !has_id(s0.skip_buffer(), t.id));
    match result {
        WorkResult::Continue(w) => {
            lemma_has_id_push(
                s1.cancel_list(),
                RunningJob { priority: t.priority, id: t.id, work: w, job: t.job },
            );
        },
        WorkResult::Skip(w) => {
            lemma_has_id_push(
                s1.cancel_list(),
                RunningJob { priority: t.priority, id: t.id, work: w, job: t.job },
            );
        },
        _ => {},
    }
}

} // verus!
