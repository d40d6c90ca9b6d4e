//! Tests for the tier manager.

use kv_cache_tier::block::{BlockPayload, KvBlock};
use kv_cache_tier::config::Config;
use kv_cache_tier::pager::{remove_sequence_and_cancel, Pager, PagerError};
use kv_cache_tier::scheduler::{DmaScheduler, TransferOp};
use kv_cache_tier::tier::{CacheFormat, Tier};

fn test_config() -> Config {
    let mut config = Config::default();
    config.tiers.gpu_vram_budget = 10000;
    config.tiers.host_ram_budget = 50000;
    config.tiers.high_watermark = 800_000;
    config.tiers.low_watermark = 500_000;
    config
}

#[test]
fn test_pager_insert_and_stats() {
    let mut pager = Pager::new(test_config());

    let block = KvBlock::new_ram(0, 1, 0, 256, vec![0u8; 5000], CacheFormat::Q8, 0);
    pager.insert_block(block);

    let stats = pager.tier_stats(Tier::Ram);
    assert_eq!(stats.block_count, 1);
    assert_eq!(stats.bytes_used, 5000);
}

#[test]
fn test_pager_remove_sequence() {
    let mut pager = Pager::new(test_config());

    let block = KvBlock::new_ram(0, 42, 0, 256, vec![0u8; 1000], CacheFormat::Q8, 0);
    let block_id = block.id;
    pager.insert_block(block);

    pager.get_or_create_sequence(42);
    assert!(pager.push_block_to_sequence(42, block_id, 256));

    let removed = pager.remove_sequence(42);
    assert_eq!(removed.len(), 1);
    assert!(pager.get_block(block_id).is_none());
}

#[test]
fn test_block_lifecycle() {
    let mut pager = Pager::new(test_config());

    // Insert blocks simulating a 1024-token sequence.
    let seq_id = 1;
    let block_size = 256;

    for i in 0..4u64 {
        let block = KvBlock::new_ram(
            i,
            seq_id,
            (i as usize) * block_size,
            block_size,
            vec![0u8; 4096],
            CacheFormat::Q8,
            0,
        );
        let block_id = block.id;
        pager.insert_block(block);

        pager.get_or_create_sequence(seq_id);
        assert!(pager.push_block_to_sequence(seq_id, block_id, block_size));
    }

    // Verify sequence state.
    let table = pager.get_sequence(seq_id).unwrap();
    assert_eq!(table.len(), 4);
    assert_eq!(table.total_tokens, 1024);

    // Verify tier stats.
    let stats = pager.tier_stats(Tier::Ram);
    assert_eq!(stats.block_count, 4);
    assert_eq!(stats.bytes_used, 4 * 4096);

    // Remove the sequence: stats return to the pre-insert state.
    let removed = pager.remove_sequence(seq_id);
    assert_eq!(removed.len(), 4);
    assert_eq!(pager.total_blocks(), 0);
    let stats = pager.tier_stats(Tier::Ram);
    assert_eq!(stats.block_count, 0);
    assert_eq!(stats.bytes_used, 0);
}

#[test]
fn test_eviction_threshold() {
    let mut cfg = Config::default();
    cfg.tiers.host_ram_budget = 10000;
    cfg.tiers.high_watermark = 800_000;
    let mut pager = Pager::new(cfg);

    // Insert blocks totaling 9000 bytes (90% of the 10000 budget).
    for i in 0..9u64 {
        let block = KvBlock::new_ram(
            i,
            1,
            (i as usize) * 256,
            256,
            vec![0u8; 1000],
            CacheFormat::Q8,
            0,
        );
        pager.insert_block(block);
    }

    // 90% > 80% watermark.
    assert!(pager.needs_eviction().is_some());
    assert_eq!(pager.needs_eviction().unwrap(), Tier::Ram);
}

#[test]
fn test_no_eviction_below_watermark() {
    let mut cfg = Config::default();
    cfg.tiers.host_ram_budget = 10000;
    cfg.tiers.high_watermark = 800_000;
    let mut pager = Pager::new(cfg);

    // Insert blocks totaling 5000 bytes (50% of the 10000 budget).
    for i in 0..5u64 {
        let block = KvBlock::new_ram(
            i,
            1,
            (i as usize) * 256,
            256,
            vec![0u8; 1000],
            CacheFormat::Q8,
            0,
        );
        pager.insert_block(block);
    }

    // 50% < 80% watermark.
    assert!(pager.needs_eviction().is_none());
}

#[test]
fn test_evict_round_moves_blocks_down() {
    let mut cfg = Config::default();
    cfg.tiers.host_ram_budget = 10000;
    cfg.tiers.high_watermark = 800_000;
    cfg.tiers.low_watermark = 500_000;
    let mut pager = Pager::new(cfg);

    for i in 0..9u64 {
        let block = KvBlock::new_ram(
            i,
            1,
            (i as usize) * 256,
            256,
            vec![0u8; 1000],
            CacheFormat::Q8,
            0,
        );
        pager.insert_block(block);
    }
    assert_eq!(pager.needs_eviction(), Some(Tier::Ram));

    let evicted = pager.evict(Tier::Ram, &vec![], 0);
    assert!(evicted > 0);

    // The victims moved to the local disk tier; accounting followed.
    let ram = pager.tier_stats(Tier::Ram);
    let disk = pager.tier_stats(Tier::LocalDisk);
    assert_eq!(ram.block_count, 9 - evicted);
    assert_eq!(disk.block_count, evicted);
    assert!(ram.bytes_used < 9000);
    // One round with equal-size blocks settles below the low
    // watermark plus one block's granularity.
    assert!(ram.bytes_used <= 5000 + 1000);
}

#[test]
fn test_evict_skips_protected_blocks() {
    let mut cfg = Config::default();
    cfg.tiers.host_ram_budget = 10000;
    cfg.tiers.high_watermark = 800_000;
    cfg.tiers.low_watermark = 100_000;
    let mut pager = Pager::new(cfg);

    for i in 0..9u64 {
        let block = KvBlock::new_ram(
            i,
            1,
            (i as usize) * 256,
            256,
            vec![0u8; 1000],
            CacheFormat::Q8,
            0,
        );
        pager.insert_block(block);
    }
    let protected: Vec<u64> = vec![0, 1, 2, 3, 4, 5, 6, 7, 8];
    let evicted = pager.evict(Tier::Ram, &protected, 0);
    assert_eq!(evicted, 0);
    assert_eq!(pager.tier_stats(Tier::Ram).block_count, 9);
}

#[test]
fn test_remove_sequence_returns_table_order() {
    let mut pager = Pager::new(test_config());

    // Insert in one order, list in the table in another: the result
    // follows the table.
    let block2 = KvBlock::new_ram(2, 9, 256, 256, vec![0u8; 100], CacheFormat::Q8, 0);
    let block1 = KvBlock::new_ram(1, 9, 0, 256, vec![0u8; 100], CacheFormat::Q8, 0);
    pager.insert_block(block2);
    pager.insert_block(block1);

    pager.get_or_create_sequence(9);
    assert!(pager.push_block_to_sequence(9, 1, 256));
    assert!(pager.push_block_to_sequence(9, 2, 256));

    let removed = pager.remove_sequence(9);
    assert_eq!(removed, vec![1, 2]);
}

#[test]
fn test_evict_below_target_is_a_no_op() {
    let mut cfg = Config::default();
    cfg.tiers.host_ram_budget = 10000;
    cfg.tiers.high_watermark = 800_000;
    cfg.tiers.low_watermark = 500_000;
    let mut pager = Pager::new(cfg);

    // 3000 bytes: well under the 5000-byte low-watermark target.
    for i in 0..3u64 {
        let block = KvBlock::new_ram(
            i,
            1,
            (i as usize) * 256,
            256,
            vec![0u8; 1000],
            CacheFormat::Q8,
            0,
        );
        pager.insert_block(block);
    }
    assert_eq!(pager.evict(Tier::Ram, &vec![], 0), 0);
    assert_eq!(pager.tier_stats(Tier::Ram).block_count, 3);
}

#[test]
fn test_remove_sequence_cancels_queued_transfers() {
    let mut pager = Pager::new(test_config());
    let mut scheduler = DmaScheduler::new(4);

    for i in 0..2u64 {
        let block = KvBlock::new_ram(
            i,
            5,
            (i as usize) * 256,
            256,
            vec![0u8; 100],
            CacheFormat::Q8,
            0,
        );
        pager.insert_block(block);
        pager.get_or_create_sequence(5);
        assert!(pager.push_block_to_sequence(5, i, 256));
    }
    // Queue transfers for one removed block and one unrelated block.
    scheduler.schedule(TransferOp {
        block_id: 1,
        from: Tier::Ram,
        to: Tier::LocalDisk,
        priority: 10,
        is_prefetch: true,
    });
    scheduler.schedule(TransferOp {
        block_id: 77,
        from: Tier::Ram,
        to: Tier::LocalDisk,
        priority: 20,
        is_prefetch: false,
    });

    let removed = remove_sequence_and_cancel(&mut pager, &mut scheduler, 5);
    assert_eq!(removed, vec![0, 1]);
    assert_eq!(pager.total_blocks(), 0);
    // The removed block's queued transfer is gone; the other remains.
    assert_eq!(scheduler.pending_count(), 1);
    assert_eq!(scheduler.next().unwrap().block_id, 77);
}

#[test]
fn test_touch_and_update_attention() {
    let mut pager = Pager::new(test_config());
    let block = KvBlock::new_ram(7, 1, 0, 256, vec![0u8; 100], CacheFormat::Q8, 0);
    pager.insert_block(block);

    assert!(pager.touch(7, 5000));
    assert!(!pager.touch(8, 5000));
    assert!(pager.update_attention(7, 0, 900_000));
    let b = pager.get_block(7).unwrap();
    assert_eq!(b.last_access_ms, 5000);
    assert_eq!(b.access_count, 1);
    assert_eq!(b.attention_score, 900_000);
}

#[test]
fn test_promote_lifts_block_to_ram() {
    let mut pager = Pager::new(test_config());
    let data = vec![42u8; 512];
    let block = KvBlock {
        id: 3,
        sequence_id: 1,
        token_start: 0,
        token_count: 256,
        tier: Tier::LocalDisk,
        format: CacheFormat::Q8,
        attention_score: 1_000_000,
        last_access_ms: 0,
        access_count: 0,
        data_size: data.len(),
        payload: BlockPayload::Disk(data),
    };
    pager.insert_block(block);

    assert_eq!(pager.promote(3, Tier::Ram), Ok(()));
    let b = pager.get_block(3).unwrap();
    assert_eq!(b.tier, Tier::Ram);
    assert_eq!(b.format, CacheFormat::Fp16);
    assert_eq!(b.data_size, 1024);
    assert_eq!(pager.tier_stats(Tier::LocalDisk).block_count, 0);
    assert_eq!(pager.tier_stats(Tier::Ram).block_count, 1);
}

#[test]
fn test_promote_errors() {
    let mut pager = Pager::new(test_config());
    assert_eq!(pager.promote(99, Tier::Ram), Err(PagerError::NotFound));

    let block = KvBlock::new_ram(5, 1, 0, 256, vec![0u8; 100], CacheFormat::Q8, 0);
    pager.insert_block(block);
    // A colder target is not a promotion.
    assert_eq!(
        pager.promote(5, Tier::LocalDisk),
        Err(PagerError::TransitionInvalid {
            from: Tier::Ram,
            to: Tier::LocalDisk
        })
    );
}

#[test]
fn test_tier_usage_readings() {
    let mut cfg = Config::default();
    cfg.tiers.host_ram_budget = 10000;
    cfg.tiers.high_watermark = 800_000;
    cfg.tiers.low_watermark = 500_000;
    let mut pager = Pager::new(cfg);
    for i in 0..9u64 {
        let block = KvBlock::new_ram(
            i,
            1,
            (i as usize) * 256,
            256,
            vec![0u8; 1000],
            CacheFormat::Q8,
            0,
        );
        pager.insert_block(block);
    }
    let stats = pager.tier_stats(Tier::Ram);
    // Usage is reported in parts per million.
    assert_eq!(stats.usage_ppm(), 900_000);
    assert!(stats.above_high_watermark(800_000));
    assert!(!stats.below_low_watermark(500_000));
}
