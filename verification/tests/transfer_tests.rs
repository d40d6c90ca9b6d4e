//! Tests for the transfer-layer bookkeeping.

use kv_cache_tier::transfer::{shard_of_block, DiskIoStats, GpuTransferEngine};

#[test]
fn test_transfer_engine_records_volumes() {
    let mut engine = GpuTransferEngine::new(2, 1024 * 1024);
    assert_eq!(engine.device_count(), 2);
    assert!(engine.check_device(1));
    assert!(!engine.check_device(2));

    engine.record_d2h(4096);
    assert_eq!(engine.stats().total_d2h_transfers, 1);
    assert_eq!(engine.stats().total_d2h_bytes, 4096);

    engine.record_h2d(2048);
    assert_eq!(engine.stats().total_h2d_transfers, 1);
    assert_eq!(engine.stats().total_h2d_bytes, 2048);
}

#[test]
fn test_disk_stats_record() {
    let mut stats = DiskIoStats::default();
    stats.record_write(1000);
    stats.record_write(500);
    stats.record_read(1500);
    assert_eq!(stats.total_writes, 2);
    assert_eq!(stats.total_bytes_written, 1500);
    assert_eq!(stats.total_reads, 1);
    assert_eq!(stats.total_bytes_read, 1500);
}

#[test]
fn test_shard_layout() {
    // Blocks are grouped a thousand ids per shard directory.
    assert_eq!(shard_of_block(0), 0);
    assert_eq!(shard_of_block(999), 0);
    assert_eq!(shard_of_block(12345), 12);
}
