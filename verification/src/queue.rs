//! Queue of jobs for calculating block root hashes.
//!
//! Unlike a channel, the queue shows its size, so that the block proposer can
//! hold back while root hashes are calculated more slowly than blocks are
//! sealed.

use std::collections::VecDeque;
use vstd::prelude::*;
use crate::types::{AccountUpdates, BlockNumber};

verus! {

/// Queue size at or above which block production must pause. With two, the
/// state keeper seals at most one block whose root hash is not calculated yet.
pub const THROTTLE_THRESHOLD: usize = 2;

/// Milliseconds between two looks at the queue while block production is
/// paused: short against the time that one root hash takes.
pub const THROTTLE_ITERATION_INTERVAL_MS: u64 = 25;

/// Data required to calculate the root hash of one block.
#[derive(Debug, Clone)]
pub struct BlockRootHashJob {
    /// Number of the block; the consumer uses it to see that no block was missed.
    pub block: BlockNumber,
    /// Account updates that happened in the block.
    pub updates: AccountUpdates,
}

/// First-in first-out queue of root hash jobs with a size counter.
#[derive(Debug)]
pub struct BlockRootHashJobQueue {
    queue: VecDeque<BlockRootHashJob>,
    size: usize,
}

impl View for BlockRootHashJobQueue {
    type V = Seq<BlockRootHashJob>;

    /// The jobs that wait, oldest first.
    closed spec fn view(&self) -> Seq<BlockRootHashJob> {
        self.queue@
    }
}

impl Default for BlockRootHashJobQueue {
    /// The empty queue.
    fn default() -> (q: Self)
        ensures
            q.wf(),
            q@ == Seq::<BlockRootHashJob>::empty(),
    {
        BlockRootHashJobQueue { queue: VecDeque::new(), size: 0 }
    }
}

impl BlockRootHashJobQueue {
    /// The size counter equals the number of jobs that wait.
    pub closed spec fn wf(&self) -> bool {
        self.size == self.queue@.len()
    }

    /// Creates a queue filled with `jobs`, the first of them at the head.
    pub fn new(jobs: Vec<BlockRootHashJob>) -> (q: Self)
        ensures
            q.wf(),
            q@ == jobs@,
    {
        let ghost all = jobs@;
        let mut jobs = jobs;
        let mut queue: VecDeque<BlockRootHashJob> = VecDeque::new();
        while jobs.len() > 0
            invariant
                jobs@ + queue@ == all,
            decreases jobs@.len(),
        {
            let ghost before = jobs@;
            let ghost waiting = queue@;
            let job = jobs.pop().unwrap();
            queue.push_front(job);
            assert(jobs@ + queue@ =~= before + waiting) by {
                assert(before =~= jobs@.push(job));
            }
        }
        assert(queue@ =~= all);
        let size = queue.len();
        BlockRootHashJobQueue { queue, size }
    }

    /// Adds a job at the tail.
    pub fn push(&mut self, job: BlockRootHashJob)
        requires
            old(self).wf(),
        ensures
            final(self).wf(),
            final(self)@ == old(self)@.push(job),
    {
        self.queue.push_back(job);
        let n = self.queue.len();
        self.size = self.size + 1;
        assert(self.size == n);
    }

    /// Takes the job at the head, if there is one.
    pub fn pop(&mut self) -> (job: Option<BlockRootHashJob>)
        requires
            old(self).wf(),
        ensures
            final(self).wf(),
            old(self)@.len() == 0 ==> job.is_none() && final(self)@ == old(self)@,
            old(self)@.len() > 0 ==> job == Some(old(self)@[0]) && final(self)@ == old(
                self,
            )@.drop_first(),
    {
        let result = self.queue.pop_front();
        if result.is_some() {
            self.size = self.size - 1;
        }
        result
    }

    /// Number of jobs that wait.
    pub fn size(&self) -> (n: usize)
        requires
            self.wf(),
        ensures
            n == self@.len(),
    {
        self.size
    }

    /// Whether block production must pause until the queue has drained.
    pub fn should_throttle(&self) -> (r: bool)
        requires
            self.wf(),
        ensures
            r == (self@.len() >= THROTTLE_THRESHOLD),
    {
        self.size() >= THROTTLE_THRESHOLD
    }
}

/// One operation on the queue, as a producer or the consumer performs it.
pub enum QueueOp {
    Push(BlockRootHashJob),
    Pop,
}

/// The jobs that wait after `ops` were performed, in order, on an empty queue.
pub open spec fn waiting_after(ops: Seq<QueueOp>) -> Seq<BlockRootHashJob>
    decreases ops.len(),
{
    if ops.len() == 0 {
        Seq::empty()
    } else {
        let before = waiting_after(ops.drop_last());
        match ops.last() {
            QueueOp::Push(job) => before.push(job),
            QueueOp::Pop => if before.len() > 0 {
                before.drop_first()
            } else {
                before
            },
        }
    }
}

/// The jobs that `ops` pushed, in the order of the pushes.
pub open spec fn pushed_by(ops: Seq<QueueOp>) -> Seq<BlockRootHashJob>
    decreases ops.len(),
{
    if ops.len() == 0 {
        Seq::empty()
    } else {
        match ops.last() {
            QueueOp::Push(job) => pushed_by(ops.drop_last()).push(job),
            QueueOp::Pop => pushed_by(ops.drop_last()),
        }
    }
}

/// The jobs that the pops among `ops` returned, in the order of the pops.
pub open spec fn popped_by(ops: Seq<QueueOp>) -> Seq<BlockRootHashJob>
    decreases ops.len(),
{
    if ops.len() == 0 {
        Seq::empty()
    } else {
        let before = waiting_after(ops.drop_last());
        match ops.last() {
            QueueOp::Push(_) => popped_by(ops.drop_last()),
            QueueOp::Pop => if before.len() > 0 {
                popped_by(ops.drop_last()).push(before[0])
            } else {
                popped_by(ops.drop_last())
            },
        }
    }
}

/// First in, first out: whatever the interleaving of pushes and pops, the jobs
/// pushed are the jobs popped followed by the jobs that still wait.
pub proof fn lemma_fifo(ops: Seq<QueueOp>)
    ensures
        pushed_by(ops) == popped_by(ops) + waiting_after(ops),
    decreases ops.len(),
{
    if ops.len() == 0 {
        assert(pushed_by(ops) =~= popped_by(ops) + waiting_after(ops));
    } else {
        lemma_fifo(ops.drop_last());
        assert(pushed_by(ops) =~= popped_by(ops) + waiting_after(ops));
    }
}

/// The popped jobs are a prefix of the pushed jobs.
pub proof fn lemma_popped_is_prefix_of_pushed(ops: Seq<QueueOp>)
    ensures
        popped_by(ops).is_prefix_of(pushed_by(ops)),
{
    lemma_fifo(ops);
    assert(pushed_by(ops).subrange(0, popped_by(ops).len() as int) =~= popped_by(ops));
}

/// The size of the queue is the number of pushes minus the number of pops that
/// returned a job.
pub proof fn lemma_size_counts_pushes_and_pops(ops: Seq<QueueOp>)
    ensures
        waiting_after(ops).len() == pushed_by(ops).len() - popped_by(ops).len(),
{
    lemma_fifo(ops);
}

} // verus!
