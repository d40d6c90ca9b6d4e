//! Transfer scheduler: coordinates overlapping data transfers with
//! computation.
//!
//! Keeps a priority queue of transfer operations and hands them out
//! subject to a concurrency cap, so GPU compute can proceed while data
//! moves between tiers.  The scheduler owns no transfer primitives:
//! the pager's transfer workers execute popped operations and report
//! completion.

use vstd::prelude::*;

use crate::block::BlockId;
use crate::tier::Tier;

verus! {

/// A scheduled transfer operation.
#[derive(Debug, Clone, Copy, PartialEq, Eq, Structural)]
pub struct TransferOp {
    /// Block being transferred.
    pub block_id: BlockId,

    /// Source tier.
    pub from: Tier,

    /// Destination tier.
    pub to: Tier,

    /// Priority (higher = more urgent).
    pub priority: u32,

    /// Whether this is a prefetch (cancellable if not needed).
    pub is_prefetch: bool,
}

/// Status of a transfer operation.
#[derive(Debug, Clone, Copy, PartialEq, Eq, Structural)]
pub enum TransferStatus {
    /// Waiting in the queue.
    Queued,
    /// Handed out and running.
    InProgress,
    /// Finished successfully.
    Completed,
    /// Finished with an error.
    Failed,
    /// Dropped before it started.
    Cancelled,
}

/// Result of a completed transfer.
#[derive(Debug, Clone, Copy, PartialEq, Eq, Structural)]
pub struct TransferResult {
    /// The transferred block.
    pub block_id: BlockId,

    /// How the transfer ended.
    pub status: TransferStatus,

    /// Bytes moved.
    pub bytes_transferred: usize,

    /// Wall time of the transfer in microseconds.
    pub duration_us: u64,
}

/// Scheduler statistics.
#[derive(Debug, Clone, Copy, PartialEq, Eq, Structural)]
pub struct DmaStats {
    /// Operations ever enqueued.
    pub total_scheduled: u64,

    /// Transfers reported successful.
    pub total_completed: u64,

    /// Queued operations dropped by cancellation.
    pub total_cancelled: u64,

    /// Transfers reported failed.
    pub total_failed: u64,
}

impl Default for DmaStats {
    fn default() -> (r: DmaStats)
        ensures
            r == (DmaStats {
                total_scheduled: 0,
                total_completed: 0,
                total_cancelled: 0,
                total_failed: 0,
            }),
    {
        DmaStats { total_scheduled: 0, total_completed: 0, total_cancelled: 0, total_failed: 0 }
    }
}

/// The queue is ordered by priority, higher first; equal priorities
/// keep their insertion (FIFO) order.
pub open spec fn queue_sorted(q: Seq<TransferOp>) -> bool {
    forall|k: int, l: int| 0 <= k < l < q.len() ==> q[k].priority >= q[l].priority
}

/// The queued operations that survive a prefetch cancellation, in
/// order.
pub open spec fn keep_non_prefetch(q: Seq<TransferOp>) -> Seq<TransferOp>
    decreases q.len(),
{
    if q.len() == 0 {
        Seq::empty()
    } else if q.last().is_prefetch {
        keep_non_prefetch(q.drop_last())
    } else {
        keep_non_prefetch(q.drop_last()).push(q.last())
    }
}

/// The queued operations that survive cancelling one block's
/// transfers, in order.
pub open spec fn keep_other_blocks(q: Seq<TransferOp>, id: BlockId) -> Seq<TransferOp>
    decreases q.len(),
{
    if q.len() == 0 {
        Seq::empty()
    } else if q.last().block_id == id {
        keep_other_blocks(q.drop_last(), id)
    } else {
        keep_other_blocks(q.drop_last(), id).push(q.last())
    }
}

/// Every survivor of a prefetch cancellation is a non-prefetch entry
/// of the original queue, the survivors are no more numerous, and a
/// sorted queue stays sorted.
proof fn lemma_keep_non_prefetch_props(q: Seq<TransferOp>)
    ensures
        keep_non_prefetch(q).len() <= q.len(),
        forall|k: int|
            0 <= k < keep_non_prefetch(q).len() ==> !(#[trigger] keep_non_prefetch(
                q,
            )[k]).is_prefetch && q.contains(keep_non_prefetch(q)[k]),
        queue_sorted(q) ==> queue_sorted(keep_non_prefetch(q)),
    decreases q.len(),
{
    let kept = keep_non_prefetch(q);
    if q.len() > 0 {
        let rest = q.drop_last();
        lemma_keep_non_prefetch_props(rest);
        assert forall|k: int|
            0 <= k < kept.len() implies !(#[trigger] kept[k]).is_prefetch && q.contains(
            kept[k],
        ) by {
            if k < keep_non_prefetch(rest).len() {
                assert(rest.contains(keep_non_prefetch(rest)[k]));
                let j = choose|j: int| 0 <= j < rest.len() && rest[j] == keep_non_prefetch(rest)[k];
                assert(q[j] == kept[k]);
            } else {
                assert(q[q.len() - 1] == kept[k]);
            }
        }
        if queue_sorted(q) {
            assert(queue_sorted(rest));
            assert forall|k: int, l: int| 0 <= k < l < kept.len() implies kept[k].priority
                >= kept[l].priority by {
                if l < keep_non_prefetch(rest).len() {
                } else {
                    assert(kept[l] == q.last());
                    assert(rest.contains(kept[k]));
                    let j = choose|j: int| 0 <= j < rest.len() && rest[j] == kept[k];
                    assert(q[j].priority >= q[q.len() - 1].priority);
                }
            }
        }
    }
}

/// The same holds for the survivors of a per-block cancellation; none
/// of them carries the cancelled id.
pub(crate) proof fn lemma_keep_other_blocks_props(q: Seq<TransferOp>, id: BlockId)
    ensures
        keep_other_blocks(q, id).len() <= q.len(),
        forall|k: int|
            0 <= k < keep_other_blocks(q, id).len() ==> (#[trigger] keep_other_blocks(
                q,
                id,
            )[k]).block_id != id && q.contains(keep_other_blocks(q, id)[k]),
        queue_sorted(q) ==> queue_sorted(keep_other_blocks(q, id)),
    decreases q.len(),
{
    let kept = keep_other_blocks(q, id);
    if q.len() > 0 {
        let rest = q.drop_last();
        lemma_keep_other_blocks_props(rest, id);
        assert forall|k: int|
            0 <= k < kept.len() implies (#[trigger] kept[k]).block_id != id && q.contains(
            kept[k],
        ) by {
            if k < keep_other_blocks(rest, id).len() {
                assert(rest.contains(keep_other_blocks(rest, id)[k]));
                let j = choose|j: int|
                    0 <= j < rest.len() && rest[j] == keep_other_blocks(rest, id)[k];
                assert(q[j] == kept[k]);
            } else {
                assert(q[q.len() - 1] == kept[k]);
            }
        }
        if queue_sorted(q) {
            assert(queue_sorted(rest));
            assert forall|k: int, l: int| 0 <= k < l < kept.len() implies kept[k].priority
                >= kept[l].priority by {
                if l < keep_other_blocks(rest, id).len() {
                } else {
                    assert(kept[l] == q.last());
                    assert(rest.contains(kept[k]));
                    let j = choose|j: int| 0 <= j < rest.len() && rest[j] == kept[k];
                    assert(q[j].priority >= q[q.len() - 1].priority);
                }
            }
        }
    }
}

/// The transfer scheduler: a priority queue of transfer operations
/// with an in-flight counter and a concurrency cap.
pub struct DmaScheduler {
    /// Pending operations, highest priority first.
    pub queue: Vec<TransferOp>,

    /// Maximum concurrent transfers.
    pub max_concurrent: usize,

    /// Currently in-flight transfer count.
    pub in_flight: usize,

    /// Statistics.
    pub stats: DmaStats,
}

impl DmaScheduler {
    /// A scheduler is well formed when its queue is ordered by
    /// priority with FIFO ties.
    pub open spec fn wf(self) -> bool {
        queue_sorted(self.queue@)
    }

    /// Create a new scheduler with the given concurrency cap.
    pub fn new(max_concurrent: usize) -> (r: DmaScheduler)
        ensures
            r.wf(),
            r.queue@ =~= Seq::<TransferOp>::empty(),
            r.max_concurrent == max_concurrent,
            r.in_flight == 0,
            r.stats == (DmaStats {
                total_scheduled: 0,
                total_completed: 0,
                total_cancelled: 0,
                total_failed: 0,
            }),
    {
        DmaScheduler {
            queue: Vec::new(),
            max_concurrent,
            in_flight: 0,
            stats: DmaStats {
                total_scheduled: 0,
                total_completed: 0,
                total_cancelled: 0,
                total_failed: 0,
            },
        }
    }

    /// Schedule a transfer operation: it is inserted behind every
    /// queued operation of equal or higher priority and ahead of the
    /// strictly lower ones, which keeps the queue sorted and FIFO on
    /// ties.
    pub fn schedule(&mut self, op: TransferOp)
        requires
            old(self).wf(),
        ensures
            final(self).wf(),
            exists|pos: int|
                {
                    &&& 0 <= pos <= old(self).queue.len()
                    &&& (forall|k: int|
                        0 <= k < pos ==> (#[trigger] old(self).queue[k]).priority >= op.priority)
                    &&& (pos < old(self).queue.len() ==> old(self).queue[pos].priority
                        < op.priority)
                    &&& final(self).queue@ == old(self).queue@.insert(pos, op)
                },
            final(self).stats.total_scheduled as int == if old(self).stats.total_scheduled
                == u64::MAX {
                u64::MAX as int
            } else {
                old(self).stats.total_scheduled + 1
            },
            final(self).in_flight == old(self).in_flight,
            final(self).max_concurrent == old(self).max_concurrent,
            final(self).stats.total_completed == old(self).stats.total_completed,
            final(self).stats.total_cancelled == old(self).stats.total_cancelled,
            final(self).stats.total_failed == old(self).stats.total_failed,
    {
        let ghost q0 = self.queue@;
        let mut pos: usize = 0;
        while pos < self.queue.len()
            invariant
                pos <= self.queue.len(),
                self.queue@ == q0,
                forall|k: int| 0 <= k < pos ==> (#[trigger] q0[k]).priority >= op.priority,
            ensures
                pos <= self.queue.len(),
                self.queue@ == q0,
                forall|k: int| 0 <= k < pos ==> (#[trigger] q0[k]).priority >= op.priority,
                pos < self.queue.len() ==> q0[pos as int].priority < op.priority,
            decreases self.queue.len() - pos,
        {
            if self.queue[pos].priority < op.priority {
                break;
            }
            pos = pos + 1;
        }
        self.queue.insert(pos, op);
        if self.stats.total_scheduled < u64::MAX {
            self.stats.total_scheduled = self.stats.total_scheduled + 1;
        }
        proof {
            let q1 = self.queue@;
            assert(q1 == q0.insert(pos as int, op));
            let p = pos as int;
            assert(0 <= p <= q0.len() && (forall|k: int|
                0 <= k < p ==> (#[trigger] q0[k]).priority >= op.priority) && (p < q0.len()
                ==> q0[p].priority < op.priority) && q1 == q0.insert(p, op));
            assert forall|k: int, l: int| 0 <= k < l < q1.len() implies q1[k].priority
                >= q1[l].priority by {
                if k < pos && l == pos {
                    assert(q1[k] == q0[k]);
                } else if k == pos {
                    assert(q1[l] == q0[l - 1]);
                    assert(q0[pos as int].priority < op.priority);
                    assert(q0[pos as int].priority >= q0[l - 1].priority);
                } else if k < pos && l > pos {
                    assert(q1[k] == q0[k] && q1[l] == q0[l - 1]);
                } else if k > pos {
                    assert(q1[k] == q0[k - 1] && q1[l] == q0[l - 1]);
                } else {
                    assert(q1[k] == q0[k] && q1[l] == q0[l]);
                }
            }
        }
    }

    /// Hand out the next transfer if there is capacity: the head of
    /// the queue, unless the in-flight count has reached the cap.
    /// Non-blocking.
    pub fn next(&mut self) -> (r: Option<TransferOp>)
        requires
            old(self).wf(),
        ensures
            final(self).wf(),
            old(self).in_flight >= old(self).max_concurrent ==> r is None && *final(self) == *old(
                self,
            ),
            old(self).in_flight < old(self).max_concurrent && old(self).queue.len() == 0 ==> r
                is None && *final(self) == *old(self),
            old(self).in_flight < old(self).max_concurrent && old(self).queue.len() > 0 ==> {
                &&& r == Some(old(self).queue[0])
                &&& final(self).queue@ == old(self).queue@.subrange(
                    1,
                    old(self).queue.len() as int,
                )
                &&& final(self).in_flight == old(self).in_flight + 1
                &&& final(self).max_concurrent == old(self).max_concurrent
                &&& final(self).stats == old(self).stats
            },
    {
        if self.in_flight >= self.max_concurrent {
            return None;
        }
        if self.queue.len() == 0 {
            return None;
        }
        let op = self.queue.remove(0);
        self.in_flight = self.in_flight + 1;
        proof {
            assert(self.queue@ =~= old(self).queue@.subrange(1, old(self).queue.len() as int));
        }
        Some(op)
    }

    /// Record the end of an in-flight transfer: the in-flight count
    /// drops (saturating at zero) and the success or failure counter
    /// grows.
    pub fn complete(&mut self, _block_id: BlockId, success: bool)
        requires
            old(self).wf(),
        ensures
            final(self).wf(),
            final(self).in_flight as int == if old(self).in_flight > 0 {
                old(self).in_flight - 1
            } else {
                0
            },
            final(self).queue == old(self).queue,
            final(self).max_concurrent == old(self).max_concurrent,
            success ==> final(self).stats.total_completed as int == if old(
                self,
            ).stats.total_completed == u64::MAX {
                u64::MAX as int
            } else {
                old(self).stats.total_completed + 1
            } && final(self).stats.total_failed == old(self).stats.total_failed,
            !success ==> final(self).stats.total_failed as int == if old(self).stats.total_failed
                == u64::MAX {
                u64::MAX as int
            } else {
                old(self).stats.total_failed + 1
            } && final(self).stats.total_completed == old(self).stats.total_completed,
            final(self).stats.total_scheduled == old(self).stats.total_scheduled,
            final(self).stats.total_cancelled == old(self).stats.total_cancelled,
    {
        if self.in_flight > 0 {
            self.in_flight = self.in_flight - 1;
        }
        if success {
            if self.stats.total_completed < u64::MAX {
                self.stats.total_completed = self.stats.total_completed + 1;
            }
        } else {
            if self.stats.total_failed < u64::MAX {
                self.stats.total_failed = self.stats.total_failed + 1;
            }
        }
    }

    /// Drop every queued prefetch operation (used when a sequence is
    /// freed or the context shifts sharply); in-flight transfers are
    /// unaffected.  Returns how many operations were dropped.
    pub fn cancel_prefetches(&mut self) -> (r: usize)
        requires
            old(self).wf(),
        ensures
            final(self).wf(),
            final(self).queue@ == keep_non_prefetch(old(self).queue@),
            r == old(self).queue.len() - final(self).queue.len(),
            final(self).in_flight == old(self).in_flight,
            final(self).max_concurrent == old(self).max_concurrent,
            final(self).stats.total_cancelled as int == if old(self).stats.total_cancelled + r
                <= u64::MAX {
                old(self).stats.total_cancelled + r
            } else {
                u64::MAX as int
            },
            final(self).stats.total_scheduled == old(self).stats.total_scheduled,
            final(self).stats.total_completed == old(self).stats.total_completed,
            final(self).stats.total_failed == old(self).stats.total_failed,
    {
        let ghost q0 = self.queue@;
        let before = self.queue.len();
        let mut kept: Vec<TransferOp> = Vec::new();
        let mut i: usize = 0;
        while i < self.queue.len()
            invariant
                i <= self.queue.len(),
                self.queue@ == q0,
                kept@ == keep_non_prefetch(q0.subrange(0, i as int)),
            decreases self.queue.len() - i,
        {
            proof {
                assert(q0.subrange(0, i + 1).drop_last() =~= q0.subrange(0, i as int));
                assert(q0.subrange(0, i + 1).last() == q0[i as int]);
            }
            let op = self.queue[i];
            if !op.is_prefetch {
                kept.push(op);
            }
            i = i + 1;
        }
        proof {
            assert(q0.subrange(0, q0.len() as int) =~= q0);
            lemma_keep_non_prefetch_props(q0);
        }
        let cancelled = before - kept.len();
        self.queue = kept;
        if cancelled as u64 <= u64::MAX - self.stats.total_cancelled {
            self.stats.total_cancelled = self.stats.total_cancelled + cancelled as u64;
        } else {
            self.stats.total_cancelled = u64::MAX;
        }
        cancelled
    }

    /// Drop every queued transfer for one block (used when its
    /// sequence is removed).  Returns whether anything was dropped.
    pub fn cancel_block(&mut self, block_id: BlockId) -> (r: bool)
        requires
            old(self).wf(),
        ensures
            final(self).wf(),
            final(self).queue@ == keep_other_blocks(old(self).queue@, block_id),
            r <==> final(self).queue.len() != old(self).queue.len(),
            final(self).in_flight == old(self).in_flight,
            final(self).max_concurrent == old(self).max_concurrent,
            r ==> final(self).stats.total_cancelled as int == if old(self).stats.total_cancelled
                == u64::MAX {
                u64::MAX as int
            } else {
                old(self).stats.total_cancelled + 1
            },
            !r ==> final(self).stats.total_cancelled == old(self).stats.total_cancelled,
            final(self).stats.total_scheduled == old(self).stats.total_scheduled,
            final(self).stats.total_completed == old(self).stats.total_completed,
            final(self).stats.total_failed == old(self).stats.total_failed,
    {
        let ghost q0 = self.queue@;
        let before = self.queue.len();
        let mut kept: Vec<TransferOp> = Vec::new();
        let mut i: usize = 0;
        while i < self.queue.len()
            invariant
                i <= self.queue.len(),
                self.queue@ == q0,
                kept@ == keep_other_blocks(q0.subrange(0, i as int), block_id),
            decreases self.queue.len() - i,
        {
            proof {
                assert(q0.subrange(0, i + 1).drop_last() =~= q0.subrange(0, i as int));
                assert(q0.subrange(0, i + 1).last() == q0[i as int]);
            }
            let op = self.queue[i];
            if op.block_id != block_id {
                kept.push(op);
            }
            i = i + 1;
        }
        proof {
            assert(q0.subrange(0, q0.len() as int) =~= q0);
            lemma_keep_other_blocks_props(q0, block_id);
        }
        let removed = kept.len() != before;
        self.queue = kept;
        if removed {
            if self.stats.total_cancelled < u64::MAX {
                self.stats.total_cancelled = self.stats.total_cancelled + 1;
            }
        }
        removed
    }

    /// Number of pending operations.
    pub fn pending_count(&self) -> (r: usize)
        ensures
            r == self.queue.len(),
    {
        self.queue.len()
    }

    /// Number of in-flight transfers.
    pub fn in_flight_count(&self) -> (r: usize)
        ensures
            r == self.in_flight,
    {
        self.in_flight
    }

    /// Get scheduler statistics.
    pub fn stats(&self) -> (r: &DmaStats)
        ensures
            r == self.stats,
    {
        &self.stats
    }
}

} // verus!
