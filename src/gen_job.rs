//! Generator-backed jobs: the adapter that drives a resumable generator one
//! resume per runner step, and the request/response protocol through which a
//! suspended generator asks for work against shared state.

use vstd::prelude::*;

use crate::jobs::WorkResult;

verus! {

/// What a suspended generator asks of the runner.
pub enum JobRequest<F> {
    /// Resume me on a later step, with no payload.
    Yield,
    /// Resume me on a later step, with no payload.
    Skip,
    /// Run this callback against shared state, and resume me with its value.
    WithWorld(F),
}

/// What the runner resumes a generator with.
pub enum JobResponse<T> {
    /// No payload.
    Nothing,
    /// The value of the callback of a `WithWorld` request.
    WithWorld(T),
}

impl<T> Default for JobResponse<T> {
    fn default() -> (r: Self)
        ensures
            r is Nothing,
    {
        JobResponse::Nothing
    }
}

impl<T> JobResponse<T> {
    /// The value that answers a `WithWorld` request. Any other response at that
    /// point breaks the protocol between a generator and its driver.
    pub fn into_world_value(self) -> (v: T)
        requires
            self is WithWorld,
        ensures
            self == JobResponse::WithWorld(v),
    {
        match self {
            JobResponse::WithWorld(v) => v,
            JobResponse::Nothing => vstd::pervasive::unreached(),
        }
    }
}

/// Where a generator stands after it was resumed.
pub enum GeneratorState<Y, C> {
    /// Suspended, with the value it yielded.
    Yielded(Y),
    /// Ran to the end, with its output.
    Complete(C),
}

/// What the host does before resuming a generator job.
pub enum Fulfil<F> {
    /// Resume with `JobResponse::Nothing`.
    Resume,
    /// Run the callback against shared state, and resume with
    /// `JobResponse::WithWorld` of its value.
    RunWithWorld(F),
}

/// The step result of a generator that yields no payload, from where it stands
/// after one resume.
pub open spec fn simple_result<S, E>(state: GeneratorState<(), Result<S, E>>) -> WorkResult<(), S, E> {
    match state {
        GeneratorState::Yielded(_) => WorkResult::Continue(()),
        GeneratorState::Complete(Ok(s)) => WorkResult::Success(s),
        GeneratorState::Complete(Err(e)) => WorkResult::Error(e),
    }
}

/// One step of a simple generator job: a yield continues the job, and completion
/// ends it with the generator's result.
pub fn simple_step<S, E>(state: GeneratorState<(), Result<S, E>>) -> (r: WorkResult<(), S, E>)
    ensures
        r == simple_result(state),
{
    match state {
        GeneratorState::Yielded(()) => WorkResult::Continue(()),
        GeneratorState::Complete(Ok(ok)) => WorkResult::Success(ok),
        GeneratorState::Complete(Err(err)) => WorkResult::Error(err),
    }
}

/// What answers the pending request `req`: the callback of a `WithWorld`
/// request is run; a plain yield, or no request at all, resumes with no payload.
pub open spec fn fulfil_of<F>(req: Option<JobRequest<F>>) -> Fulfil<F> {
    match req {
        Some(JobRequest::WithWorld(f)) => Fulfil::RunWithWorld(f),
        _ => Fulfil::Resume,
    }
}

/// The adapter state of a rich generator job: the request that the generator left
/// when it last suspended, which the next step answers before resuming it.
pub struct GenJob<F> {
    last_request: Option<JobRequest<F>>,
}

impl<F> GenJob<F> {
    /// The request that awaits an answer, if any.
    pub closed spec fn pending(&self) -> Option<JobRequest<F>> {
        self.last_request
    }

    /// A job whose generator has not run yet.
    pub fn new() -> (r: Self)
        ensures
            r.pending() is None,
    {
        GenJob { last_request: None }
    }

    /// First half of a step: takes the pending request and says how to answer it.
    pub fn take_request(&mut self) -> (r: Fulfil<F>)
        ensures
            final(self).pending() is None,
            r == fulfil_of(old(self).pending()),
    {
        match self.last_request.take() {
            Some(JobRequest::WithWorld(f)) => Fulfil::RunWithWorld(f),
            Some(JobRequest::Yield) => Fulfil::Resume,
            Some(JobRequest::Skip) => Fulfil::Resume,
            None => Fulfil::Resume,
        }
    }

    /// Second half of a step, once the generator was resumed with the answer: a new
    /// request is kept for the next step and the job continues; completion ends it.
    pub fn on_resumed<S, E>(&mut self, state: GeneratorState<JobRequest<F>, Result<S, E>>) -> (r:
        WorkResult<(), S, E>)
        requires
            old(self).pending() is None,
        ensures
            match state {
                GeneratorState::Yielded(req) => final(self).pending() == Some(req)
                    && r is Continue,
                GeneratorState::Complete(Ok(s)) => final(self).pending() is None && r
                    == WorkResult::<(), S, E>::Success(s),
                GeneratorState::Complete(Err(e)) => final(self).pending() is None && r
                    == WorkResult::<(), S, E>::Error(e),
            },
    {
        match state {
            GeneratorState::Yielded(request) => {
                self.last_request = Some(request);
                WorkResult::Continue(())
            },
            GeneratorState::Complete(Ok(ok)) => WorkResult::Success(ok),
            GeneratorState::Complete(Err(err)) => WorkResult::Error(err),
        }
    }
}

/// Every request gets exactly one answer of its own shape: a `WithWorld` request
/// has its callback run, any other request resumes the generator with no
/// payload, and after that nothing is pending.
pub proof fn each_request_answered_once<F>(j0: GenJob<F>, j1: GenJob<F>, answer: Fulfil<F>, req: JobRequest<F>)
    requires
        j0.pending() == Some(req),
        j1.pending() is None,
        answer == fulfil_of(j0.pending()),
    ensures
        req matches JobRequest::WithWorld(f) ==> answer == Fulfil::RunWithWorld(f),
        !(req is WithWorld) ==> answer is Resume,
        fulfil_of(j1.pending()) is Resume,
{
}

} // verus!
