//! The worker pool's shared job queue. Submission never blocks and the queue
//! is unbounded; jobs leave strictly first in, first out. The workers that
//! drain it under a lock belong to the application.

use vstd::prelude::*;

verus! {

pub struct JobQueue<J> {
    jobs: Vec<J>,
}

impl<J> View for JobQueue<J> {
    type V = Seq<J>;

    closed spec fn view(&self) -> Seq<J> {
        self.jobs@
    }
}

impl<J> JobQueue<J> {
    pub fn new() -> (r: Self)
        ensures
            r@ == Seq::<J>::empty(),
    {
        let r = JobQueue { jobs: Vec::new() };
        proof {
            assert(r@ =~= Seq::<J>::empty());
        }
        r
    }

    /// Enqueue at the back; never blocks, never drops.
    pub fn push(&mut self, job: J)
        ensures
            final(self)@ == old(self)@.push(job),
    {
        self.jobs.push(job);
    }

    /// Dequeue from the front: exactly the oldest job leaves.
    pub fn pop(&mut self) -> (r: Option<J>)
        ensures
            old(self)@.len() == 0 ==> r is None && final(self)@ == old(self)@,
            old(self)@.len() > 0 ==> r == Some(old(self)@[0]) && final(self)@ == old(self)@.skip(
                1,
            ),
    {
        if self.jobs.len() == 0 {
            None
        } else {
            let j = self.jobs.remove(0);
            proof {
                assert(self.jobs@ =~= old(self)@.skip(1));
            }
            Some(j)
        }
    }

    pub fn len(&self) -> (n: usize)
        ensures
            n == self@.len(),
    {
        self.jobs.len()
    }
}

/// Law (queue order): after `k` jobs have left a queue that held `jobs`, the
/// next to leave is exactly `jobs[k]` — every submitted job is handed out
/// once, in submission order.
pub proof fn lemma_queue_fifo<J>(jobs: Seq<J>, k: int)
    requires
        0 <= k < jobs.len(),
    ensures
        jobs.skip(k)[0] == jobs[k],
        jobs.skip(k).skip(1) == jobs.skip(k + 1),
{
    assert(jobs.skip(k).skip(1) =~= jobs.skip(k + 1));
}

} // verus!
