//! Tests for the sliding-window prefetcher.

use kv_cache_tier::block::BlockTable;
use kv_cache_tier::config::PrefetchConfig;
use kv_cache_tier::prefetcher::Prefetcher;
use kv_cache_tier::tier::Tier;

fn small_window() -> PrefetchConfig {
    PrefetchConfig {
        hot_window_tokens: 512,
        prefetch_ahead: 2,
        attention_based: false,
    }
}

#[test]
fn test_sliding_window_prefetch() {
    let prefetcher = Prefetcher::new(small_window());

    let mut table = BlockTable::new(1, 256);
    for i in 0..10u64 {
        table.push(i, 256);
    }

    // Blocks 6 and 7 are on SSD, the rest on GPU.
    let tiers: Vec<(u64, Tier)> = (0..10u64)
        .map(|id| {
            if id == 6 || id == 7 {
                (id, Tier::LocalDisk)
            } else {
                (id, Tier::Gpu)
            }
        })
        .collect();

    // Current position is token 2048; the hot window covers blocks 6-8.
    let requests = prefetcher.compute_prefetch_requests(&table, 2048, &tiers);

    let promoted: Vec<u64> = requests
        .iter()
        .filter(|r| r.target_tier == Tier::Gpu)
        .map(|r| r.block_id)
        .collect();
    assert!(promoted.contains(&6));
    assert!(promoted.contains(&7));
}

#[test]
fn test_prefetch_sorted_by_priority() {
    let prefetcher = Prefetcher::new(small_window());

    let mut table = BlockTable::new(1, 256);
    for i in 0..10u64 {
        table.push(i, 256);
    }
    // Hot blocks off GPU get priorities 100 - offset; look-ahead
    // blocks on disk get 50.
    let tiers: Vec<(u64, Tier)> = (0..10u64).map(|id| (id, Tier::LocalDisk)).collect();
    let requests = prefetcher.compute_prefetch_requests(&table, 2048, &tiers);
    assert!(!requests.is_empty());
    for pair in requests.windows(2) {
        assert!(pair[0].priority >= pair[1].priority);
    }
    assert_eq!(requests[0].priority, 100);
    assert_eq!(requests.last().unwrap().priority, 50);
}

#[test]
fn test_protected_blocks() {
    let prefetcher = Prefetcher::new(small_window());

    let mut table = BlockTable::new(1, 256);
    for i in 0..10u64 {
        table.push(i, 256);
    }

    let protected = prefetcher.protected_blocks(&table, 2048);
    // Hot window tokens 1536..2049 cover blocks 6, 7 and 8.
    assert!(protected.contains(&6));
    assert!(protected.contains(&7));
    assert!(!protected.contains(&5));
}
