//! The worker pool's bookkeeping: a fixed set of workers, each busy with at
//! most one job at a time, sharing one queue of submitted jobs. The running
//! loop itself lives with the caller, which performs each decided action
//! and reports back; here every decision is made and proved.
use vstd::prelude::*;

verus! {

/// One cooking job: which table's which meal item to prepare.
#[derive(Clone, Copy, Debug, PartialEq, Eq, Structural)]
pub struct JobSpec {
    pub table_id: u32,
    pub meal_item_id: u128,
}

/// Something that accepts submitted jobs.
pub trait ThreadPoolDyn {
    fn execute(&mut self, job: JobSpec);
}

/// How many workers are busy.
pub open spec fn count_busy(s: Seq<bool>) -> int
    decreases s.len(),
{
    if s.len() == 0 {
        0
    } else {
        count_busy(s.drop_last()) + (if s.last() {
            1int
        } else {
            0int
        })
    }
}

proof fn lemma_count_busy_le_len(s: Seq<bool>)
    ensures
        0 <= count_busy(s) <= s.len(),
    decreases s.len(),
{
    if s.len() > 0 {
        lemma_count_busy_le_len(s.drop_last());
    }
}

/// The mathematical content of the pool's bookkeeping.
pub struct WorkerPoolView {
    pub size: usize,
    pub busy: Seq<bool>,
    pub pending: Seq<JobSpec>,
    pub open: bool,
}

/// The bookkeeping of a fixed-size worker pool: one busy flag per worker, a
/// first-in-first-out queue of pending jobs, and whether submission is
/// still open.
#[derive(Debug)]
pub struct WorkerPool {
    size: usize,
    busy: Vec<bool>,
    pending: Vec<JobSpec>,
    open: bool,
}

impl View for WorkerPool {
    type V = WorkerPoolView;

    closed spec fn view(&self) -> WorkerPoolView {
        WorkerPoolView {
            size: self.size,
            busy: self.busy@,
            pending: self.pending@,
            open: self.open,
        }
    }
}

impl WorkerPool {
    /// One busy flag per worker, nothing more.
    pub open spec fn wf(self) -> bool {
        self@.busy.len() == self@.size
    }

    /// A pool of the given size: every worker idle, nothing pending,
    /// submission open.
    pub fn new(size: usize) -> (r: Self)
        ensures
            r.wf(),
            r@.size == size,
            r@.busy == Seq::new(size as nat, |i: int| false),
            r@.pending == Seq::<JobSpec>::empty(),
            r@.open,
    {
        WorkerPool { size, busy: vec![false; size], pending: Vec::new(), open: true }
    }

    /// Enqueue a job without blocking; the queue is unbounded. Submitting
    /// to a pool that was shut down is a programming error, ruled out here
    /// rather than handled.
    pub fn submit(&mut self, job: JobSpec)
        requires
            old(self).wf(),
            old(self)@.open,
        ensures
            final(self).wf(),
            final(self)@.pending == old(self)@.pending.push(job),
            final(self)@.busy == old(self)@.busy,
            final(self)@.size == old(self)@.size,
            final(self)@.open,
    {
        self.pending.push(job);
    }

    /// An idle worker asks for work: the oldest pending job, if any, and
    /// the worker turns busy with it.
    pub fn take_job(&mut self, worker: usize) -> (r: Option<JobSpec>)
        requires
            old(self).wf(),
            worker < old(self)@.size,
            !old(self)@.busy[worker as int],
        ensures
            final(self).wf(),
            final(self)@.size == old(self)@.size,
            final(self)@.open == old(self)@.open,
            old(self)@.pending.len() == 0 ==> r is None && final(self)@ == old(self)@,
            old(self)@.pending.len() > 0 ==> r == Some(old(self)@.pending[0])
                && final(self)@.pending == old(self)@.pending.drop_first()
                && final(self)@.busy == old(self)@.busy.update(worker as int, true),
    {
        if self.pending.len() == 0 {
            None
        } else {
            let job = self.pending.remove(0);
            self.busy[worker] = true;
            proof {
                assert(final(self)@.pending =~= old(self)@.pending.drop_first());
            }
            Some(job)
        }
    }

    /// A worker reports its job done and turns idle.
    pub fn finish_job(&mut self, worker: usize)
        requires
            old(self).wf(),
            worker < old(self)@.size,
            old(self)@.busy[worker as int],
        ensures
            final(self).wf(),
            final(self)@.size == old(self)@.size,
            final(self)@.open == old(self)@.open,
            final(self)@.pending == old(self)@.pending,
            final(self)@.busy == old(self)@.busy.update(worker as int, false),
    {
        self.busy[worker] = false;
    }

    /// Close submission. Idempotent: pending jobs and busy workers are left
    /// to finish.
    pub fn shutdown(&mut self)
        ensures
            final(self)@.size == old(self)@.size,
            final(self)@.busy == old(self)@.busy,
            final(self)@.pending == old(self)@.pending,
            !final(self)@.open,
    {
        self.open = false;
    }

    pub fn is_open(&self) -> (r: bool)
        ensures
            r == self@.open,
    {
        self.open
    }

    pub fn pending_count(&self) -> (r: usize)
        ensures
            r == self@.pending.len(),
    {
        self.pending.len()
    }

    /// How many workers are busy right now.
    pub fn running(&self) -> (r: usize)
        ensures
            r == count_busy(self@.busy),
    {
        let ghost s = self@.busy;
        let n = self.busy.len();
        let mut count: usize = 0;
        let mut i: usize = 0;
        while i < n
            invariant
                i <= n,
                n == s.len(),
                s == self@.busy,
                count == count_busy(s.subrange(0, i as int)),
                count <= i,
            decreases n - i,
        {
            proof {
                assert(s.subrange(0, i + 1 as int).drop_last() =~= s.subrange(0, i as int));
            }
            if self.busy[i] {
                count = count + 1;
            }
            i = i + 1;
        }
        proof {
            assert(s.subrange(0, n as int) =~= s);
        }
        count
    }
}

impl ThreadPoolDyn for WorkerPool {
    fn execute(&mut self, job: JobSpec) {
        if self.open {
            self.pending.push(job);
        }
    }
}

/// At most as many jobs run concurrently as the pool has workers: each
/// worker is busy with at most one job at a time.
pub proof fn lemma_at_most_pool_size_running(p: WorkerPool)
    requires
        p.wf(),
    ensures
        count_busy(p@.busy) <= p@.size,
{
    lemma_count_busy_le_len(p@.busy);
}

} // verus!
