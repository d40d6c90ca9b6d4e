//! Tests for the transfer scheduler.

use kv_cache_tier::scheduler::{DmaScheduler, TransferOp};
use kv_cache_tier::tier::Tier;

fn op(block_id: u64, priority: u32, is_prefetch: bool) -> TransferOp {
    TransferOp {
        block_id,
        from: Tier::Ram,
        to: Tier::Gpu,
        priority,
        is_prefetch,
    }
}

#[test]
fn test_priority_ordering() {
    let mut scheduler = DmaScheduler::new(4);

    scheduler.schedule(op(1, 10, false));
    scheduler.schedule(TransferOp {
        block_id: 2,
        from: Tier::LocalDisk,
        to: Tier::Ram,
        priority: 50,
        is_prefetch: true,
    });
    scheduler.schedule(op(3, 100, false));

    // Highest priority first.
    let first = scheduler.next().unwrap();
    assert_eq!(first.block_id, 3);
    assert_eq!(first.priority, 100);

    let second = scheduler.next().unwrap();
    assert_eq!(second.block_id, 2);
}

#[test]
fn test_fifo_on_equal_priority() {
    let mut scheduler = DmaScheduler::new(4);
    scheduler.schedule(op(1, 10, false));
    scheduler.schedule(op(2, 10, false));
    scheduler.schedule(op(3, 10, false));

    assert_eq!(scheduler.next().unwrap().block_id, 1);
    assert_eq!(scheduler.next().unwrap().block_id, 2);
    assert_eq!(scheduler.next().unwrap().block_id, 3);
}

#[test]
fn test_max_concurrent() {
    let mut scheduler = DmaScheduler::new(1);

    scheduler.schedule(op(1, 10, false));
    scheduler.schedule(op(2, 10, false));

    // Can dequeue one.
    assert!(scheduler.next().is_some());
    // Cannot dequeue another (at the concurrency cap).
    assert!(scheduler.next().is_none());

    // Complete the first.
    scheduler.complete(1, true);
    // Now can dequeue.
    assert!(scheduler.next().is_some());
}

#[test]
fn test_cancel_prefetches() {
    let mut scheduler = DmaScheduler::new(4);

    scheduler.schedule(op(1, 10, false));
    scheduler.schedule(TransferOp {
        block_id: 2,
        from: Tier::LocalDisk,
        to: Tier::Ram,
        priority: 10,
        is_prefetch: true,
    });

    let cancelled = scheduler.cancel_prefetches();
    assert_eq!(cancelled, 1);
    assert_eq!(scheduler.pending_count(), 1);
}

#[test]
fn test_cancel_block() {
    let mut scheduler = DmaScheduler::new(4);
    scheduler.schedule(op(1, 10, false));
    scheduler.schedule(op(2, 20, false));
    scheduler.schedule(op(1, 30, true));

    assert!(scheduler.cancel_block(1));
    assert_eq!(scheduler.pending_count(), 1);
    assert_eq!(scheduler.next().unwrap().block_id, 2);
    assert!(!scheduler.cancel_block(1));
}

#[test]
fn test_stats_counters() {
    let mut scheduler = DmaScheduler::new(4);
    scheduler.schedule(op(1, 10, false));
    scheduler.schedule(op(2, 10, false));
    let _ = scheduler.next();
    let _ = scheduler.next();
    scheduler.complete(1, true);
    scheduler.complete(2, false);

    let stats = scheduler.stats();
    assert_eq!(stats.total_scheduled, 2);
    assert_eq!(stats.total_completed, 1);
    assert_eq!(stats.total_failed, 1);
    assert_eq!(scheduler.in_flight_count(), 0);
}
