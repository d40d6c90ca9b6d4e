//! Tests for tiers, blocks and the block table.

use kv_cache_tier::block::GpuLocation;
use kv_cache_tier::block::{BlockIdCounter, BlockTable, KvBlock};
use kv_cache_tier::tier::{CacheFormat, Tier};

#[test]
fn test_tier_ordering() {
    assert_eq!(Tier::Gpu.level(), 0);
    assert_eq!(Tier::Nfs.level(), 3);
}

#[test]
fn test_tier_transitions() {
    assert_eq!(Tier::Gpu.demote(), Some(Tier::Ram));
    assert_eq!(Tier::Nfs.demote(), None);
    assert_eq!(Tier::Nfs.promote(), Some(Tier::LocalDisk));
    assert_eq!(Tier::Gpu.promote(), None);
}

#[test]
fn test_block_table_lookup() {
    let mut table = BlockTable::new(1, 256);
    table.push(100, 256);
    table.push(101, 256);
    table.push(102, 128); // partial last block

    assert_eq!(table.block_for_token(0), Some(100));
    assert_eq!(table.block_for_token(255), Some(100));
    assert_eq!(table.block_for_token(256), Some(101));
    assert_eq!(table.block_for_token(512), Some(102));
    assert_eq!(table.block_for_token(700), None);
}

#[test]
fn test_block_table_boundaries() {
    let mut table = BlockTable::new(1, 256);
    table.push(7, 256);
    table.push(8, 100);
    // One past the last token is absent; the last token maps to the
    // last block.
    assert_eq!(table.block_for_token(356), None);
    assert_eq!(table.block_for_token(355), Some(8));
}

#[test]
fn test_block_attention_update() {
    let loc = GpuLocation {
        device_id: 0,
        offset: 0,
        size: 1024,
    };
    let mut block = KvBlock::new_gpu(0, 1, 0, 256, loc, 1024, 0);
    // Scores are fixed-point: one million parts stand for 1.0.
    assert_eq!(block.attention_score, 1_000_000);

    block.update_attention(0, 900_000);
    assert_eq!(block.attention_score, 900_000);

    block.update_attention(0, 900_000);
    assert_eq!(block.attention_score, 810_000);
}

#[test]
fn test_blocks_in_range() {
    let mut table = BlockTable::new(1, 256);
    for i in 0..4u64 {
        table.push(i, 256);
    }
    assert_eq!(table.blocks_in_range(0, 256), vec![0]);
    assert_eq!(table.blocks_in_range(0, 257), vec![0, 1]);
    assert_eq!(table.blocks_in_range(256, 1024), vec![1, 2, 3]);
    assert_eq!(table.blocks_in_range(100, 100), Vec::<u64>::new());
}

#[test]
fn test_block_id_counter_is_monotonic() {
    let mut counter = BlockIdCounter::new();
    let a = counter.fresh_id();
    let b = counter.fresh_id();
    let c = counter.fresh_id();
    assert_eq!((a, b, c), (0, 1, 2));
}

#[test]
fn test_block_token_range_and_residency() {
    let block = KvBlock::new_ram(0, 1, 512, 128, vec![0u8; 64], CacheFormat::Q8, 0);
    assert_eq!(block.token_end(), 640);
    assert!(block.is_resident_in(Tier::Ram));
    assert!(!block.is_resident_in(Tier::Gpu));
}
