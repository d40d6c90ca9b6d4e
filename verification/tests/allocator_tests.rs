//! Tests for the VRAM block allocator.

use kv_cache_tier::block::GpuLocation;
use kv_cache_tier::allocator::{AllocatorError, VramAllocator};

#[test]
fn test_allocate_and_free() {
    let mut alloc = VramAllocator::new(&vec![(0, 4096), (1, 4096)], 1024);

    // Allocate 4 blocks on device 0 (fills it).
    let locs: Vec<_> = (0..4).map(|_| alloc.allocate(0).unwrap()).collect();
    assert_eq!(alloc.total_allocated(), 4);

    // Device 0 should be full.
    assert!(alloc.allocate(0).is_err());

    // Free one.
    alloc.free(&locs[0]).unwrap();
    assert_eq!(alloc.total_allocated(), 3);

    // Can allocate again.
    alloc.allocate(0).unwrap();
}

#[test]
fn test_allocate_best() {
    let mut alloc = VramAllocator::new(&vec![(0, 2048), (1, 4096)], 1024);

    // Best should pick device 1 (more free space).
    let loc = alloc.allocate_best().unwrap();
    assert_eq!(loc.device_id, 1);
}

#[test]
fn test_utilization() {
    let mut alloc = VramAllocator::new(&vec![(0, 4096)], 1024);

    // Utilization is reported in parts per million.
    let util = alloc.utilization();
    assert_eq!(util[0].1, 0);

    alloc.allocate(0).unwrap();
    alloc.allocate(0).unwrap();

    let util = alloc.utilization();
    assert_eq!(util[0].1, 500_000);
}

#[test]
fn test_allocator_balance() {
    let mut alloc = VramAllocator::new(&vec![(0, 8192), (1, 4096)], 1024);
    let total = alloc.total_free();
    assert_eq!(total, 12);

    let a = alloc.allocate(0).unwrap();
    let b = alloc.allocate_best().unwrap();
    assert_eq!(alloc.total_allocated() + alloc.total_free(), 12);

    alloc.free(&a).unwrap();
    alloc.free(&b).unwrap();
    assert_eq!(alloc.total_allocated() + alloc.total_free(), 12);
    assert_eq!(alloc.total_allocated(), 0);
}

#[test]
fn test_free_rejects_bad_offsets() {
    let mut alloc = VramAllocator::new(&vec![(0, 4096)], 1024);
    let loc = alloc.allocate(0).unwrap();

    // Misaligned offset.
    let bad = GpuLocation {
        device_id: 0,
        offset: 13,
        size: 1024,
    };
    assert_eq!(
        alloc.free(&bad),
        Err(AllocatorError::BlockNotFound {
            device_id: 0,
            offset: 13
        })
    );

    // Unknown device.
    let other = GpuLocation {
        device_id: 7,
        offset: 0,
        size: 1024,
    };
    assert_eq!(alloc.free(&other), Err(AllocatorError::DeviceNotInitialized(7)));

    // Double free.
    alloc.free(&loc).unwrap();
    assert_eq!(
        alloc.free(&loc),
        Err(AllocatorError::BlockNotFound {
            device_id: 0,
            offset: loc.offset
        })
    );
}

#[test]
fn test_out_of_memory_error() {
    let mut alloc = VramAllocator::new(&vec![(3, 1024)], 1024);
    alloc.allocate(3).unwrap();
    assert_eq!(
        alloc.allocate(3),
        Err(AllocatorError::OutOfMemory { device_id: 3 })
    );
}
