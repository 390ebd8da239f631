use std::collections::VecDeque;
use vstd::prelude::*;

verus! {

/// A request to sync one repository.
#[derive(Clone, Debug)]
pub struct Job {
    pub repository_id: i32,
    pub owner: String,
    pub name: String,
    pub github_token: String,
}

/// Some waiting job is for this repository.
pub open spec fn has_pending(q: Seq<Job>, repository_id: i32) -> bool {
    exists|i: int| 0 <= i < q.len() && #[trigger] q[i].repository_id == repository_id
}

/// Pending sync jobs, served first in, first out. A request for a
/// repository that already has a job waiting collapses into that job.
pub struct JobQueue {
    queue: VecDeque<Job>,
}

impl View for JobQueue {
    type V = Seq<Job>;

    closed spec fn view(&self) -> Seq<Job> {
        self.queue@
    }
}

impl JobQueue {
    /// An empty queue.
    pub fn new() -> (r: Self)
        ensures
            r@ == Seq::<Job>::empty(),
    {
        JobQueue { queue: VecDeque::new() }
    }

    /// Number of waiting jobs.
    pub fn len(&self) -> (r: usize)
        ensures
            r == self@.len(),
    {
        self.queue.len()
    }

    /// Queues a job at the back, unless a job for the same repository is
    /// already waiting; says whether it was queued.
    pub fn push(&mut self, job: Job) -> (queued: bool)
        ensures
            queued == !has_pending(old(self)@, job.repository_id),
            queued ==> final(self)@ == old(self)@.push(job),
            !queued ==> final(self)@ == old(self)@,
    {
        let mut k: usize = 0;
        while k < self.queue.len()
            invariant
                k <= self@.len(),
                forall|i: int| 0 <= i < k ==> #[trigger] self@[i].repository_id != job.repository_id,
            decreases self@.len() - k,
        {
            if self.queue[k].repository_id == job.repository_id {
                assert(self@[k as int].repository_id == job.repository_id);
                return false;
            }
            k += 1;
        }
        self.queue.push_back(job);
        true
    }

    /// Takes the job that has waited longest.
    pub fn pop(&mut self) -> (r: Option<Job>)
        ensures
            old(self)@.len() == 0 ==> r is None && final(self)@ == old(self)@,
            old(self)@.len() > 0 ==> r == Some(old(self)@[0]) && final(self)@ == old(self)@.drop_first(),
    {
        let r = self.queue.pop_front();
        proof {
            if old(self)@.len() > 0 {
                assert(self@ =~= old(self)@.drop_first());
            }
        }
        r
    }
}

} // verus!
