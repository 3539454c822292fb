//! Deferred command batching: jobs queue mutations of shared state in batches,
//! and one batch is applied per frame, oldest first.

use std::collections::VecDeque;
use vstd::prelude::*;

use crate::jobs::{JobHandle, JobsScheduler, WorkResult};

verus! {

/// Most batches that wait at once; further commands join the newest batch.
pub const MAX_QUEUES: usize = 24;

/// Priority of the job that applies the batches: ahead of ordinary jobs.
pub const FLUSH_JOB_PRIORITY: isize = -100;

/// Marker put on the sentinel entity while batches wait to be applied.
#[derive(Clone, Copy, Debug, PartialEq, Eq, Structural)]
pub struct Loading;

/// Marker for the plugin that sets up the [`BatchCommandQueue`] and registers its
/// flush job at [`FLUSH_JOB_PRIORITY`].
pub struct BatchQueuePlugin;

impl BatchQueuePlugin {
    /// An empty batch queue, with its flush job staged at [`FLUSH_JOB_PRIORITY`]
    /// with the given initial work value and step callable.
    pub fn build<C, W, J>(&self, scheduler: &mut JobsScheduler<W, J>, initial: W, flush_job: J) -> (r: (
        BatchCommandQueue<C>,
        JobHandle,
    ))
        requires
            old(scheduler).wf(),
            old(scheduler).next_id() < usize::MAX,
        ensures
            final(scheduler).wf(),
            r.0.wf(),
            r.0.batches() == Seq::<Seq<C>>::empty(),
            r.1@ == old(scheduler).next_id(),
            final(scheduler).next_id() == old(scheduler).next_id() + 1,
            final(scheduler).pending() == old(scheduler).pending().push(
                (crate::jobs::RunningJob {
                    priority: FLUSH_JOB_PRIORITY,
                    id: old(scheduler).next_id(),
                    work: initial,
                    job: flush_job,
                }),
            ),
    {
        let handle = scheduler.add(FLUSH_JOB_PRIORITY, initial, flush_job);
        (BatchCommandQueue::new(), handle)
    }
}

/// What one flush step hands the host: the batch to apply to shared state, if
/// one was waiting, and whether batches are still waiting after it (the
/// sentinel entity then carries [`Loading`]).
pub struct Flush<C> {
    pub batch: Option<Vec<C>>,
    pub loading: bool,
}

/// The contents of a sequence of batches.
pub open spec fn batches_of<C>(q: Seq<Vec<C>>) -> Seq<Seq<C>> {
    q.map_values(|b: Vec<C>| b@)
}

/// Batches of deferred commands, oldest first, and emptied buffers kept for reuse.
pub struct BatchCommandQueue<C> {
    pending: VecDeque<Vec<C>>,
    pool: Vec<Vec<C>>,
}

impl<C> BatchCommandQueue<C> {
    /// The waiting batches, oldest first.
    pub closed spec fn batches(&self) -> Seq<Seq<C>> {
        batches_of(self.pending@)
    }

    /// Every waiting command, in the order in which they will be applied.
    pub open spec fn stream(&self) -> Seq<C> {
        self.batches().flatten()
    }

    /// Number of emptied buffers kept for reuse.
    pub closed spec fn pooled(&self) -> nat {
        self.pool@.len()
    }

    /// At most [`MAX_QUEUES`] batches wait, and the kept buffers are empty.
    pub closed spec fn wf(&self) -> bool {
        &&& self.pending@.len() <= MAX_QUEUES
        &&& self.pool@.len() <= MAX_QUEUES
        &&& forall|i: int| 0 <= i < self.pool@.len() ==> (#[trigger] self.pool@[i])@.len() == 0
    }

    pub fn new() -> (r: Self)
        ensures
            r.wf(),
            r.batches() == Seq::<Seq<C>>::empty(),
    {
        let r = BatchCommandQueue { pending: VecDeque::new(), pool: Vec::new() };
        assert(r.batches() =~= Seq::<Seq<C>>::empty());
        r
    }

    /// Number of waiting batches.
    pub fn len(&self) -> (r: usize)
        ensures
            r == self.batches().len(),
    {
        self.pending.len()
    }

    /// An empty buffer to write commands into, reused if one is kept. Nothing is
    /// applied until the buffer is submitted and then flushed.
    pub fn commands(&mut self) -> (r: Vec<C>)
        requires
            old(self).wf(),
        ensures
            final(self).wf(),
            r@ == Seq::<C>::empty(),
            final(self).batches() == old(self).batches(),
            final(self).pooled() == (if old(self).pooled() > 0 {
                old(self).pooled() - 1
            } else {
                0
            }),
    {
        match self.pool.pop() {
            Some(buf) => {
                assert(old(self).pool@[old(self).pool@.len() - 1] == buf);
                buf
            },
            None => Vec::new(),
        }
    }

    /// Queues a filled buffer behind the waiting ones. When [`MAX_QUEUES`] batches
    /// already wait, its commands join the newest batch instead.
    pub fn submit(&mut self, batch: Vec<C>)
        requires
            old(self).wf(),
        ensures
            final(self).wf(),
            final(self).stream() == old(self).stream() + batch@,
            old(self).batches().len() < MAX_QUEUES ==> final(self).batches() == old(
                self,
            ).batches().push(batch@),
            old(self).batches().len() == MAX_QUEUES ==> final(self).batches() == old(
                self,
            ).batches().drop_last().push(old(self).batches().last() + batch@),
    {
        let ghost pre = self.batches();
        if self.pending.len() < MAX_QUEUES {
            self.pending.push_back(batch);
            proof {
                assert(self.batches() =~= pre.push(batch@));
                pre.lemma_flatten_push(batch@);
            }
        } else {
            let mut batch = batch;
            let ghost added = batch@;
            match self.pending.pop_back() {
                Some(mut last) => {
                    let ghost rest = self.batches();
                    assert(rest =~= pre.drop_last());
                    last.append(&mut batch);
                    self.pending.push_back(last);
                    proof {
                        assert(self.batches() =~= rest.push(pre.last() + added));
                        rest.lemma_flatten_push(pre.last() + added);
                        rest.lemma_flatten_push(pre.last());
                        assert(pre =~= rest.push(pre.last()));
                        assert(self.stream() =~= pre.flatten() + added);
                    }
                },
                None => {},
            }
        }
    }

    /// Takes the oldest waiting batch, for the host to apply to shared state, and
    /// says whether batches still wait after it.
    pub fn apply_next(&mut self) -> (r: Flush<C>)
        requires
            old(self).wf(),
        ensures
            final(self).wf(),
            r.batch is Some == (old(self).batches().len() > 0),
            r.batch matches Some(b) ==> b@ == old(self).batches()[0] && final(self).batches()
                == old(self).batches().drop_first(),
            r.batch is None ==> final(self).batches() == old(self).batches(),
            old(self).stream() == (match r.batch {
                Some(b) => b@,
                None => Seq::<C>::empty(),
            }) + final(self).stream(),
            r.loading == (final(self).batches().len() > 0),
    {
        let ghost pre = self.batches();
        let batch = self.pending.pop_front();
        proof {
            if pre.len() > 0 {
                assert(self.batches() =~= pre.drop_first());
            } else {
                assert(pre.flatten() =~= Seq::<C>::empty() + pre.flatten());
            }
        }
        let loading = self.pending.len() > 0;
        Flush { batch, loading }
    }

    /// Takes back a buffer whose commands were applied, emptied, for reuse; with
    /// [`MAX_QUEUES`] buffers already kept, it is dropped.
    pub fn recycle(&mut self, buf: Vec<C>)
        requires
            old(self).wf(),
        ensures
            final(self).wf(),
            final(self).batches() == old(self).batches(),
            final(self).pooled() == (if old(self).pooled() < MAX_QUEUES {
                old(self).pooled() + 1
            } else {
                old(self).pooled()
            }),
    {
        let mut buf = buf;
        if self.pool.len() < MAX_QUEUES {
            buf.clear();
            self.pool.push(buf);
        }
    }

    /// One step of the flush job: applies at most one batch, and always asks to be
    /// stepped again in the next frame, so batches go one per frame.
    pub fn commands_job_step(&mut self) -> (r: (Flush<C>, WorkResult<(), (), ()>))
        requires
            old(self).wf(),
        ensures
            final(self).wf(),
            r.0.batch is Some == (old(self).batches().len() > 0),
            r.0.batch matches Some(b) ==> b@ == old(self).batches()[0] && final(self).batches()
                == old(self).batches().drop_first(),
            r.0.batch is None ==> final(self).batches() == old(self).batches(),
            r.0.loading == (final(self).batches().len() > 0),
            r.1 is Skip,
    {
        let flush = self.apply_next();
        (flush, WorkResult::Skip(()))
    }
}

/// Batches come out in the order they went in: a batch submitted behind `k`
/// waiting ones (fewer than [`MAX_QUEUES`]) is the one taken after those `k`.
pub proof fn batches_apply_in_order<C>(
    q0: BatchCommandQueue<C>,
    q1: BatchCommandQueue<C>,
    q2: BatchCommandQueue<C>,
    batch: Seq<C>,
    taken: Option<Seq<C>>,
)
    requires
        q0.batches().len() < MAX_QUEUES,
        q1.batches() == q0.batches().push(batch),
        taken is Some == (q1.batches().len() > 0),
        taken matches Some(b) ==> b == q1.batches()[0] && q2.batches() == q1.batches().drop_first(),
    ensures
        q0.batches().len() == 0 ==> taken == Some(batch) && q2.batches().len() == 0,
        q0.batches().len() > 0 ==> taken == Some(q0.batches()[0]) && q2.batches()[q2.batches().len() - 1] == batch,
{
}

} // verus!
