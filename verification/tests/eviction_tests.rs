//! Tests for the eviction policy.

use kv_cache_tier::block::KvBlock;
use kv_cache_tier::config::EvictionConfig;
use kv_cache_tier::evictor::Evictor;
use kv_cache_tier::tier::{CacheFormat, Tier};

/// A RAM block with the given id and attention score (fixed-point:
/// one million parts stand for 1.0).
fn make_test_block(id: u64, attention: u64, tier: Tier) -> KvBlock {
    let mut block = KvBlock::new_ram(
        id,
        1,
        (id as usize) * 256,
        256,
        vec![0u8; 1024],
        CacheFormat::Q8,
        0,
    );
    block.tier = tier;
    block.attention_score = attention;
    block
}

#[test]
fn test_eviction_prefers_low_attention() {
    let evictor = Evictor::new(EvictionConfig::default());

    let blocks = vec![
        make_test_block(0, 10_000_000, Tier::Ram), // high attention
        make_test_block(1, 10_000, Tier::Ram),     // low attention: evict first
        make_test_block(2, 5_000_000, Tier::Ram),
    ];

    let victims = evictor.select_victims(&blocks, Tier::Ram, 1, &vec![], 0);
    assert_eq!(victims.len(), 1);
    assert_eq!(victims[0].block_id, 1);
}

#[test]
fn test_protected_blocks_excluded() {
    let evictor = Evictor::new(EvictionConfig::default());

    let blocks = vec![
        make_test_block(0, 1_000, Tier::Ram),
        make_test_block(1, 1_000, Tier::Ram),
    ];

    let victims = evictor.select_victims(&blocks, Tier::Ram, 2, &vec![0], 0);
    assert_eq!(victims.len(), 1);
    assert_eq!(victims[0].block_id, 1);
}

#[test]
fn test_eviction_order_by_attention() {
    // Only attention matters: alpha 1.0, beta and gamma zero.
    let config = EvictionConfig {
        alpha: 1_000_000,
        beta: 0,
        gamma: 0,
        ..EvictionConfig::default()
    };
    let evictor = Evictor::new(config);

    let blocks = vec![
        make_test_block(0, 100_000_000, Tier::Ram), // attention 100
        make_test_block(1, 100_000, Tier::Ram),     // attention 0.1: evict second
        make_test_block(2, 50_000_000, Tier::Ram),  // attention 50
        make_test_block(3, 1_000, Tier::Ram),       // attention 0.001: evict first
    ];

    let victims = evictor.select_victims(&blocks, Tier::Ram, 2, &vec![], 0);
    assert_eq!(victims.len(), 2);

    assert_eq!(victims[0].block_id, 3);
    assert_eq!(victims[1].block_id, 1);
}

#[test]
fn test_eviction_respects_tier_filter() {
    let evictor = Evictor::new(EvictionConfig::default());

    let blocks = vec![
        make_test_block(0, 100_000, Tier::Gpu),
        make_test_block(1, 100_000, Tier::Ram),
        make_test_block(2, 100_000, Tier::LocalDisk),
    ];

    let victims = evictor.select_victims(&blocks, Tier::Ram, 10, &vec![], 0);
    assert_eq!(victims.len(), 1);
    assert_eq!(victims[0].block_id, 1);
}

#[test]
fn test_eviction_empty_returns_nothing() {
    let evictor = Evictor::new(EvictionConfig::default());

    let blocks: Vec<KvBlock> = vec![];
    let victims = evictor.select_victims(&blocks, Tier::Ram, 5, &vec![], 0);
    assert!(victims.is_empty());
}

#[test]
fn test_zero_attention_sorts_first() {
    let evictor = Evictor::new(EvictionConfig::default());

    // A zero-attention block gets the saturated priority and comes
    // out ahead of everything with nonzero attention.
    let blocks = vec![
        make_test_block(0, 1, Tier::Ram), // smallest nonzero score
        make_test_block(1, 0, Tier::Ram), // zero attention
        make_test_block(2, 2_000_000, Tier::Ram),
    ];

    let victims = evictor.select_victims(&blocks, Tier::Ram, 3, &vec![], 0);
    assert_eq!(victims.len(), 3);
    assert_eq!(victims[0].block_id, 1);
    assert!(victims[0].score > victims[1].score);
}

#[test]
fn test_tie_broken_by_ascending_id() {
    let evictor = Evictor::new(EvictionConfig::default());

    let blocks = vec![
        make_test_block(5, 1_000, Tier::Ram),
        make_test_block(2, 1_000, Tier::Ram),
        make_test_block(9, 1_000, Tier::Ram),
    ];

    let victims = evictor.select_victims(&blocks, Tier::Ram, 3, &vec![], 0);
    assert_eq!(victims.len(), 3);
    assert_eq!(victims[0].block_id, 2);
    assert_eq!(victims[1].block_id, 5);
    assert_eq!(victims[2].block_id, 9);
}
