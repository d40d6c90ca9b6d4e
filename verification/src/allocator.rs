//! GPU VRAM block allocator for the KV cache.
//!
//! Manages a pre-allocated VRAM region per device as a pool of
//! fixed-size blocks with a free-list: allocation and release are
//! constant-time, offsets stay aligned and unique, and on every device
//! the allocated count plus the free count equals the pool size.

use vstd::prelude::*;

use crate::block::GpuLocation;

verus! {

/// Errors of the VRAM allocator.
#[derive(Debug, Clone, Copy, PartialEq, Eq, Structural)]
pub enum AllocatorError {
    /// No free blocks remain on the device.
    OutOfMemory { device_id: usize },
    /// The offset does not name an allocated block of the device.
    BlockNotFound { device_id: usize, offset: usize },
    /// No allocator exists for the device.
    DeviceNotInitialized(usize),
}

/// Per-device VRAM allocator.
pub struct DeviceAllocator {
    /// Device index.
    pub device_id: usize,

    /// Block size in bytes.
    pub block_size: usize,

    /// Total number of blocks in the pool.
    pub total_blocks: usize,

    /// Offsets of the free blocks, in hand-out order.
    pub free_list: Vec<usize>,

    /// Number of allocated blocks.
    pub allocated: usize,
}

impl DeviceAllocator {
    /// Well-formedness: free offsets are aligned, in range and unique,
    /// and the allocated count balances the free list against the pool
    /// size.
    pub open spec fn wf(self) -> bool {
        &&& self.block_size >= 1
        &&& self.total_blocks * self.block_size <= usize::MAX
        &&& self.allocated + self.free_list.len() == self.total_blocks
        &&& forall|k: int|
            0 <= k < self.free_list.len() ==> (#[trigger] self.free_list[k]) as int
                % (self.block_size as int) == 0 && (self.free_list[k] as int) < self.total_blocks
                * self.block_size
        &&& forall|k: int, l: int|
            0 <= k < l < self.free_list.len() ==> self.free_list[k] != self.free_list[l]
    }

    /// Create a pool carving as many whole blocks as fit the budget.
    pub fn new(device_id: usize, total_vram: usize, block_size: usize) -> (r: DeviceAllocator)
        requires
            block_size >= 1,
        ensures
            r.wf(),
            r.device_id == device_id,
            r.block_size == block_size,
            r.total_blocks == total_vram as int / block_size as int,
            r.allocated == 0,
            r.free_list.len() == r.total_blocks,
            forall|k: int|
                0 <= k < r.free_list.len() ==> (#[trigger] r.free_list[k]) as int == k
                    * block_size,
    {
        let total_blocks = total_vram / block_size;
        proof {
            let t = total_blocks as int;
            let bs = block_size as int;
            assert(t * bs <= total_vram) by (nonlinear_arith)
                requires
                    bs >= 1,
                    t == total_vram as int / bs,
                    total_vram >= 0,
            ;
        }
        let mut free_list: Vec<usize> = Vec::new();
        let mut i: usize = 0;
        while i < total_blocks
            invariant
                i <= total_blocks,
                block_size >= 1,
                total_blocks * block_size <= usize::MAX,
                free_list.len() == i,
                forall|k: int|
                    0 <= k < i ==> (#[trigger] free_list[k]) as int == k * block_size,
            decreases total_blocks - i,
        {
            proof {
                let bs = block_size as int;
                let t = total_blocks as int;
                assert((i as int) * bs + bs <= t * bs) by (nonlinear_arith)
                    requires
                        bs >= 1,
                        0 <= i as int && (i as int) < t,
                ;
            }
            free_list.push(i * block_size);
            i = i + 1;
        }
        let r = DeviceAllocator { device_id, block_size, total_blocks, free_list, allocated: 0 };
        proof {
            let bs = block_size as int;
            assert forall|k: int| 0 <= k < r.free_list.len() implies (#[trigger] r.free_list[k])
                as int % bs == 0 && (r.free_list[k] as int) < r.total_blocks * bs by {
                assert(r.free_list[k] as int == k * bs);
                assert((k * bs) % bs == 0) by (nonlinear_arith)
                    requires
                        bs >= 1,
                ;
                assert(k * bs < r.total_blocks * bs) by (nonlinear_arith)
                    requires
                        bs >= 1,
                        k < r.total_blocks,
                ;
            }
            assert forall|k: int, l: int|
                0 <= k < l < r.free_list.len() implies r.free_list[k] != r.free_list[l] by {
                assert(k * bs < l * bs) by (nonlinear_arith)
                    requires
                        bs >= 1,
                        k < l,
                ;
            }
        }
        r
    }

    /// Take the next free block.
    pub fn allocate(&mut self) -> (r: Result<GpuLocation, AllocatorError>)
        requires
            old(self).wf(),
        ensures
            final(self).wf(),
            final(self).device_id == old(self).device_id,
            final(self).block_size == old(self).block_size,
            final(self).total_blocks == old(self).total_blocks,
            old(self).free_list.len() == 0 ==> r == Err::<GpuLocation, AllocatorError>(
                AllocatorError::OutOfMemory { device_id: old(self).device_id },
            ) && *final(self) == *old(self),
            old(self).free_list.len() > 0 ==> {
                &&& r == Ok::<GpuLocation, AllocatorError>(
                    GpuLocation {
                        device_id: old(self).device_id,
                        offset: old(self).free_list[0],
                        size: old(self).block_size,
                    },
                )
                &&& final(self).free_list@ == old(self).free_list@.subrange(
                    1,
                    old(self).free_list.len() as int,
                )
                &&& final(self).allocated == old(self).allocated + 1
            },
    {
        if self.free_list.len() == 0 {
            return Err(AllocatorError::OutOfMemory { device_id: self.device_id });
        }
        let offset = self.free_list.remove(0);
        self.allocated = self.allocated + 1;
        proof {
            assert(self.free_list@ =~= old(self).free_list@.subrange(
                1,
                old(self).free_list.len() as int,
            ));
        }
        Ok(GpuLocation { device_id: self.device_id, offset, size: self.block_size })
    }

    /// Return a block to the pool.  The offset must name a block of
    /// this pool that is not already free: misaligned, out-of-range
    /// and double frees are all rejected.
    pub fn free(&mut self, offset: usize) -> (r: Result<(), AllocatorError>)
        requires
            old(self).wf(),
        ensures
            final(self).wf(),
            final(self).device_id == old(self).device_id,
            final(self).block_size == old(self).block_size,
            final(self).total_blocks == old(self).total_blocks,
            r is Ok <==> offset as int % (old(self).block_size as int) == 0 && (offset as int)
                < old(self).total_blocks * old(self).block_size && !old(self).free_list@.contains(offset),
            r is Ok ==> final(self).free_list@ == old(self).free_list@.push(offset) && final(self).allocated == old(self).allocated - 1,
            r is Err ==> *final(self) == *old(self) && r == Err::<(), AllocatorError>(
                AllocatorError::BlockNotFound { device_id: old(self).device_id, offset },
            ),
    {
        let ghost free0 = self.free_list@;
        if offset % self.block_size != 0 || offset / self.block_size >= self.total_blocks {
            proof {
                if offset as int % (self.block_size as int) == 0 {
                    let bs = self.block_size as int;
                    let t = self.total_blocks as int;
                    assert((offset as int) >= t * bs) by (nonlinear_arith)
                        requires
                            bs >= 1,
                            offset as int / bs >= t,
                            offset as int % bs == 0,
                            offset >= 0,
                    ;
                }
            }
            return Err(AllocatorError::BlockNotFound { device_id: self.device_id, offset });
        }
        let mut k: usize = 0;
        while k < self.free_list.len()
            invariant
                k <= self.free_list.len(),
                *self == *old(self),
                old(self).wf(),
                self.free_list@ == free0,
                forall|j: int| 0 <= j < k ==> #[trigger] free0[j] != offset,
            decreases self.free_list.len() - k,
        {
            if self.free_list[k] == offset {
                return Err(AllocatorError::BlockNotFound { device_id: self.device_id, offset });
            }
            k = k + 1;
        }
        proof {
            assert(!free0.contains(offset));
            assert((offset as int) < self.total_blocks * self.block_size) by (nonlinear_arith)
                requires
                    self.block_size >= 1,
                    offset as int / (self.block_size as int) < self.total_blocks,
                    offset as int % (self.block_size as int) == 0,
                    offset >= 0,
            ;
            lemma_missing_offset(
                free0,
                self.block_size as int,
                self.total_blocks as int,
                offset as int,
            );
            assert(self.allocated >= 1);
        }
        self.free_list.push(offset);
        self.allocated = self.allocated - 1;
        Ok(())
    }
}

/// If one valid aligned offset is missing from a list of distinct
/// valid aligned offsets, the list cannot cover the whole pool: there
/// are only `total` aligned offsets below the pool's end.
proof fn lemma_missing_offset(free: Seq<usize>, bs: int, total: int, x: int)
    requires
        bs >= 1,
        forall|k: int|
            0 <= k < free.len() ==> (#[trigger] free[k]) as int % bs == 0 && (free[k] as int)
                < total * bs,
        forall|k: int, l: int| 0 <= k < l < free.len() ==> free[k] != free[l],
        x % bs == 0,
        0 <= x < total * bs,
        !free.contains(x as usize),
    ensures
        free.len() < total,
{
    broadcast use vstd::arithmetic::div_mod::lemma_fundamental_div_mod;

    let idxs = Seq::new(free.len(), |k: int| free[k] as int / bs);
    assert forall|k: int, l: int| 0 <= k < l < idxs.len() implies idxs[k] != idxs[l] by {
        let a = free[k] as int;
        let b = free[l] as int;
        assert(a == bs * (a / bs) + a % bs);
        assert(b == bs * (b / bs) + b % bs);
        if a / bs == b / bs {
            assert(a == b);
            assert(free[k] == free[l]);
        }
    }
    assert(idxs.no_duplicates());
    idxs.unique_seq_to_set();

    assert(total >= 1) by (nonlinear_arith)
        requires
            bs >= 1,
            0 <= x,
            x < total * bs,
    ;
    let range = vstd::set_lib::set_int_range(0, total);
    vstd::set_lib::lemma_int_range(0, total);
    let target = range.remove(x / bs);
    assert(0 <= x / bs < total) by (nonlinear_arith)
        requires
            bs >= 1,
            0 <= x < total * bs,
    ;
    assert(range.contains(x / bs));
    assert(target.len() == total - 1);

    assert forall|e: int| idxs.to_set().contains(e) implies target.contains(e) by {
        let k = choose|k: int| 0 <= k < idxs.len() && idxs[k] == e;
        let a = free[k] as int;
        assert(a == bs * (a / bs) + a % bs);
        assert(0 <= a / bs < total) by (nonlinear_arith)
            requires
                bs >= 1,
                0 <= a < total * bs,
                a % bs == 0,
        ;
        if e == x / bs {
            assert(x == bs * (x / bs) + x % bs);
            assert(a == x);
            assert(free[k] == x as usize);
            assert(free.contains(x as usize));
        }
    }
    vstd::set_lib::lemma_len_subset(idxs.to_set(), target);
}

/// Multi-device VRAM allocator: block allocation across multiple GPUs.
#[verifier::ext_equal]
pub struct VramAllocator {
    /// Per-device allocators.
    pub devices: Vec<DeviceAllocator>,

    /// Block size in bytes.
    pub block_size: usize,
}

/// Blocks allocated across the devices of the sequence.
pub open spec fn spec_total_allocated(devs: Seq<DeviceAllocator>) -> int
    decreases devs.len(),
{
    if devs.len() == 0 {
        0
    } else {
        spec_total_allocated(devs.drop_last()) + devs.last().allocated
    }
}

/// Free blocks across the devices of the sequence.
pub open spec fn spec_total_free(devs: Seq<DeviceAllocator>) -> int
    decreases devs.len(),
{
    if devs.len() == 0 {
        0
    } else {
        spec_total_free(devs.drop_last()) + devs.last().free_list.len()
    }
}

/// Pool sizes across the devices of the sequence.
pub open spec fn spec_total_blocks(devs: Seq<DeviceAllocator>) -> int
    decreases devs.len(),
{
    if devs.len() == 0 {
        0
    } else {
        spec_total_blocks(devs.drop_last()) + devs.last().total_blocks
    }
}

/// Allocator balance: across every device, allocated blocks plus free
/// blocks equal the pool size, whatever allocate/free sequence led to
/// the state.
pub proof fn lemma_allocator_balance(a: VramAllocator)
    requires
        a.wf(),
    ensures
        spec_total_allocated(a.devices@) + spec_total_free(a.devices@) == spec_total_blocks(
            a.devices@,
        ),
{
    lemma_balance_rec(a.devices@);
}

/// The balance argument, device by device.
proof fn lemma_balance_rec(devs: Seq<DeviceAllocator>)
    requires
        forall|d: int| 0 <= d < devs.len() ==> (#[trigger] devs[d]).wf(),
    ensures
        spec_total_allocated(devs) + spec_total_free(devs) == spec_total_blocks(devs),
    decreases devs.len(),
{
    if devs.len() > 0 {
        lemma_balance_rec(devs.drop_last());
    }
}

/// Whether some device of the sequence carries the id.
pub open spec fn has_device(devs: Seq<DeviceAllocator>, id: usize) -> bool {
    exists|d: int| 0 <= d < devs.len() && (#[trigger] devs[d]).device_id == id
}

/// The index of the device carrying the id.
pub open spec fn device_index(devs: Seq<DeviceAllocator>, id: usize) -> int {
    choose|d: int| 0 <= d < devs.len() && (#[trigger] devs[d]).device_id == id
}

impl VramAllocator {
    /// Well-formedness: every device allocator is well formed, shares
    /// the block size, and carries a distinct device id.
    pub open spec fn wf(self) -> bool {
        &&& forall|d: int|
            0 <= d < self.devices.len() ==> (#[trigger] self.devices[d]).wf() && self.devices[d].block_size == self.block_size
        &&& forall|d: int, e: int|
            0 <= d < e < self.devices.len() ==> self.devices[d].device_id != self.devices[e].device_id
    }

    /// Create a new allocator for the given devices.
    ///
    /// `device_vram` lists `(device_id, vram_budget_bytes)` pairs with
    /// distinct device ids.
    pub fn new(device_vram: &Vec<(usize, usize)>, block_size: usize) -> (r: VramAllocator)
        requires
            block_size >= 1,
            forall|d: int, e: int|
                0 <= d < e < device_vram.len() ==> (#[trigger] device_vram[d]).0 != (
                #[trigger] device_vram[e]).0,
        ensures
            r.wf(),
            r.block_size == block_size,
            r.devices.len() == device_vram.len(),
            forall|d: int|
                0 <= d < r.devices.len() ==> {
                    &&& (#[trigger] r.devices[d]).device_id == device_vram[d].0
                    &&& r.devices[d].total_blocks == device_vram[d].1 as int / block_size as int
                    &&& r.devices[d].allocated == 0
                    &&& r.devices[d].free_list.len() == r.devices[d].total_blocks
                    &&& (forall|k: int|
                        0 <= k < r.devices[d].free_list.len() ==> (#[trigger] r.devices[
                            d
                        ].free_list[k]) as int == k * block_size)
                },
    {
        let mut devices: Vec<DeviceAllocator> = Vec::new();
        let mut i: usize = 0;
        while i < device_vram.len()
            invariant
                i <= device_vram.len(),
                block_size >= 1,
                devices.len() == i,
                forall|d: int, e: int|
                    0 <= d < e < device_vram.len() ==> (#[trigger] device_vram[d]).0 != (
                    #[trigger] device_vram[e]).0,
                forall|d: int|
                    0 <= d < i ==> {
                        &&& (#[trigger] devices[d]).wf()
                        &&& devices[d].block_size == block_size
                        &&& devices[d].device_id == device_vram[d].0
                        &&& devices[d].total_blocks == device_vram[d].1 as int / block_size as int
                        &&& devices[d].allocated == 0
                        &&& devices[d].free_list.len() == devices[d].total_blocks
                        &&& (forall|k: int|
                            0 <= k < devices[d].free_list.len() ==> (#[trigger] devices[
                                d
                            ].free_list[k]) as int == k * block_size)
                    },
            decreases device_vram.len() - i,
        {
            let entry = device_vram[i];
            let dev = DeviceAllocator::new(entry.0, entry.1, block_size);
            devices.push(dev);
            i = i + 1;
        }
        VramAllocator { devices, block_size }
    }

    /// Find the position of a device by id.
    fn find_device(&self, device_id: usize) -> (r: Option<usize>)
        requires
            self.wf(),
        ensures
            r is Some <==> has_device(self.devices@, device_id),
            r matches Some(idx) ==> idx < self.devices.len() && self.devices[
                idx as int
            ].device_id == device_id && idx as int == device_index(self.devices@, device_id),
    {
        let mut i: usize = 0;
        while i < self.devices.len()
            invariant
                i <= self.devices.len(),
                self.wf(),
                forall|d: int| 0 <= d < i ==> (#[trigger] self.devices[d]).device_id != device_id,
            decreases self.devices.len() - i,
        {
            if self.devices[i].device_id == device_id {
                proof {
                    assert(has_device(self.devices@, device_id)) by {
                        assert(self.devices[i as int].device_id == device_id);
                    }
                    let w = device_index(self.devices@, device_id);
                    if w != i as int {
                        assert(self.devices@[w].device_id == device_id);
                    }
                }
                return Some(i);
            }
            i = i + 1;
        }
        proof {
            assert(!has_device(self.devices@, device_id));
        }
        None
    }

    /// Allocate a block on the specified device.
    pub fn allocate(&mut self, device_id: usize) -> (r: Result<GpuLocation, AllocatorError>)
        requires
            old(self).wf(),
        ensures
            final(self).wf(),
            final(self).block_size == old(self).block_size,
            final(self).devices.len() == old(self).devices.len(),
            !has_device(old(self).devices@, device_id) ==> r == Err::<
                GpuLocation,
                AllocatorError,
            >(AllocatorError::DeviceNotInitialized(device_id)) && final(self).devices@ == old(self).devices@,
            has_device(old(self).devices@, device_id) ==> {
                let d = device_index(old(self).devices@, device_id);
                let dev = old(self).devices[d];
                &&& (dev.free_list.len() == 0 ==> r == Err::<GpuLocation, AllocatorError>(
                    AllocatorError::OutOfMemory { device_id },
                ) && final(self).devices@ == old(self).devices@)
                &&& (dev.free_list.len() > 0 ==> {
                    &&& r == Ok::<GpuLocation, AllocatorError>(
                        GpuLocation {
                            device_id,
                            offset: dev.free_list[0],
                            size: old(self).block_size,
                        },
                    )
                    &&& final(self).devices@ == old(self).devices@.update(
                        d,
                        final(self).devices[d],
                    )
                    &&& final(self).devices[d].free_list@ == dev.free_list@.subrange(
                        1,
                        dev.free_list.len() as int,
                    )
                    &&& final(self).devices[d].allocated == dev.allocated + 1
                    &&& final(self).devices[d].total_blocks == dev.total_blocks
                    &&& final(self).devices[d].device_id == dev.device_id
                })
            },
    {
        let idx = match self.find_device(device_id) {
            Some(idx) => idx,
            None => {
                return Err(AllocatorError::DeviceNotInitialized(device_id));
            },
        };
        let r = {
            let dev = &mut self.devices[idx];
            dev.allocate()
        };
        proof {
            lemma_update_keeps_wf(old(self).devices@, self.devices@, idx as int);
            if r is Err {
                assert(self.devices@ =~= old(self).devices@);
            }
        }
        r
    }

    /// Allocate a block on the device with the most free blocks; ties
    /// go to the lowest device id.
    pub fn allocate_best(&mut self) -> (r: Result<GpuLocation, AllocatorError>)
        requires
            old(self).wf(),
        ensures
            final(self).wf(),
            final(self).block_size == old(self).block_size,
            final(self).devices.len() == old(self).devices.len(),
            (forall|d: int|
                0 <= d < old(self).devices.len() ==> (#[trigger] old(self).devices[d]).free_list.len() == 0) ==> r == Err::<GpuLocation, AllocatorError>(
                AllocatorError::OutOfMemory { device_id: 0 },
            ) && final(self).devices@ == old(self).devices@,
            (exists|d: int|
                0 <= d < old(self).devices.len() && (#[trigger] old(self).devices[d]).free_list.len() > 0) ==> exists|d: int|
                {
                    &&& 0 <= d < old(self).devices.len()
                    &&& (#[trigger] old(self).devices[d]).free_list.len() > 0
                    &&& (forall|e: int|
                        0 <= e < old(self).devices.len() ==> (#[trigger] old(self).devices[e]).free_list.len() <= old(self).devices[d].free_list.len())
                    &&& (forall|e: int|
                        0 <= e < old(self).devices.len() && (#[trigger] old(self).devices[e]).free_list.len() == old(self).devices[d].free_list.len()
                            ==> old(self).devices[d].device_id <= old(self).devices[e].device_id)
                    &&& r == Ok::<GpuLocation, AllocatorError>(
                        GpuLocation {
                            device_id: old(self).devices[d].device_id,
                            offset: old(self).devices[d].free_list[0],
                            size: old(self).block_size,
                        },
                    )
                    &&& final(self).devices@ == old(self).devices@.update(
                        d,
                        final(self).devices[d],
                    )
                    &&& final(self).devices[d].free_list@ == old(self).devices[d].free_list@.subrange(
                        1,
                        old(self).devices[d].free_list.len() as int,
                    )
                    &&& final(self).devices[d].allocated == old(self).devices[d].allocated + 1
                },
    {
        let ghost devs0 = self.devices@;
        let mut best: usize = 0;
        let mut found = false;
        let mut i: usize = 0;
        while i < self.devices.len()
            invariant
                i <= self.devices.len(),
                self.devices@ == devs0,
                self.wf(),
                !found ==> forall|d: int|
                    0 <= d < i ==> (#[trigger] devs0[d]).free_list.len() == 0,
                found ==> {
                    &&& best < i
                    &&& devs0[best as int].free_list.len() > 0
                    &&& (forall|d: int|
                        0 <= d < i ==> (#[trigger] devs0[d]).free_list.len() <= devs0[
                            best as int
                        ].free_list.len())
                    &&& (forall|d: int|
                        0 <= d < i && (#[trigger] devs0[d]).free_list.len() == devs0[
                            best as int
                        ].free_list.len() ==> devs0[best as int].device_id <= devs0[d].device_id)
                },
            decreases self.devices.len() - i,
        {
            let len_i = self.devices[i].free_list.len();
            if len_i > 0 {
                if !found {
                    best = i;
                    found = true;
                } else {
                    let len_b = self.devices[best].free_list.len();
                    if len_i > len_b || (len_i == len_b && self.devices[i].device_id
                        < self.devices[best].device_id) {
                        best = i;
                    }
                }
            }
            i = i + 1;
        }
        if !found {
            return Err(AllocatorError::OutOfMemory { device_id: 0 });
        }
        let ghost b = best as int;
        let r = {
            let dev = &mut self.devices[best];
            dev.allocate()
        };
        proof {
            lemma_update_keeps_wf(old(self).devices@, self.devices@, b);
            assert(r matches Ok(loc) && loc == (GpuLocation {
                device_id: devs0[b].device_id,
                offset: devs0[b].free_list[0],
                size: self.block_size,
            }));
        }
        r
    }

    /// Free a block at its GPU location.
    pub fn free(&mut self, location: &GpuLocation) -> (r: Result<(), AllocatorError>)
        requires
            old(self).wf(),
        ensures
            final(self).wf(),
            final(self).block_size == old(self).block_size,
            final(self).devices.len() == old(self).devices.len(),
            !has_device(old(self).devices@, location.device_id) ==> r == Err::<
                (),
                AllocatorError,
            >(AllocatorError::DeviceNotInitialized(location.device_id)) && final(self).devices@ == old(self).devices@,
            has_device(old(self).devices@, location.device_id) ==> {
                let d = device_index(old(self).devices@, location.device_id);
                let dev = old(self).devices[d];
                &&& (r is Ok <==> location.offset as int % (old(self).block_size as int) == 0 && (
                location.offset as int) < dev.total_blocks * old(self).block_size
                    && !dev.free_list@.contains(location.offset))
                &&& (r is Ok ==> final(self).devices@ == old(self).devices@.update(
                    d,
                    final(self).devices[d],
                ) && final(self).devices[d].free_list@ == dev.free_list@.push(location.offset)
                    && final(self).devices[d].allocated == dev.allocated - 1 && final(self).devices[d].total_blocks == dev.total_blocks && final(self).devices[d].device_id
                    == dev.device_id)
                &&& (r is Err ==> final(self).devices@ == old(self).devices@ && r == Err::<(), AllocatorError>(
                    AllocatorError::BlockNotFound {
                        device_id: location.device_id,
                        offset: location.offset,
                    },
                ))
            },
    {
        let idx = match self.find_device(location.device_id) {
            Some(idx) => idx,
            None => {
                return Err(AllocatorError::DeviceNotInitialized(location.device_id));
            },
        };
        let r = {
            let dev = &mut self.devices[idx];
            dev.free(location.offset)
        };
        proof {
            lemma_update_keeps_wf(old(self).devices@, self.devices@, idx as int);
            if r is Err {
                assert(self.devices@ =~= old(self).devices@);
            }
        }
        r
    }

    /// Utilization of each device, as `(device_id, fraction)` pairs
    /// with the fraction in parts per million of the pool.
    pub fn utilization(&self) -> (r: Vec<(usize, u64)>)
        requires
            self.wf(),
        ensures
            r.len() == self.devices.len(),
            forall|d: int|
                0 <= d < r.len() ==> (#[trigger] r[d]).0 == self.devices[d].device_id && r[d].1
                    as int == if self.devices[d].total_blocks == 0 {
                    0int
                } else {
                    self.devices[d].allocated * 1_000_000int / (
                    self.devices[d].total_blocks as int)
                },
    {
        let mut out: Vec<(usize, u64)> = Vec::new();
        let mut i: usize = 0;
        while i < self.devices.len()
            invariant
                i <= self.devices.len(),
                self.wf(),
                out.len() == i,
                forall|d: int|
                    0 <= d < i ==> (#[trigger] out[d]).0 == self.devices[d].device_id && out[d].1
                        as int == if self.devices[d].total_blocks == 0 {
                        0int
                    } else {
                        self.devices[d].allocated * 1_000_000int / (
                        self.devices[d].total_blocks as int)
                    },
            decreases self.devices.len() - i,
        {
            let dev = &self.devices[i];
            let frac: u64 = if dev.total_blocks == 0 {
                0
            } else {
                let scaled = (dev.allocated as u128) * 1_000_000u128;
                let ratio = scaled / (dev.total_blocks as u128);
                proof {
                    let a = dev.allocated as int;
                    let t = dev.total_blocks as int;
                    assert(a * 1_000_000int / t <= 1_000_000int) by (nonlinear_arith)
                        requires
                            t >= 1,
                            0 <= a <= t,
                    ;
                }
                ratio as u64
            };
            out.push((dev.device_id, frac));
            i = i + 1;
        }
        out
    }

    /// Total free blocks across all devices (saturating at the address
    /// space bound).
    pub fn total_free(&self) -> (r: usize)
        requires
            self.wf(),
        ensures
            r as int == if spec_total_free(self.devices@) <= usize::MAX {
                spec_total_free(self.devices@)
            } else {
                usize::MAX as int
            },
    {
        let mut sum: usize = 0;
        let mut i: usize = 0;
        while i < self.devices.len()
            invariant
                i <= self.devices.len(),
                self.wf(),
                sum as int == if spec_total_free(self.devices@.subrange(0, i as int))
                    <= usize::MAX {
                    spec_total_free(self.devices@.subrange(0, i as int))
                } else {
                    usize::MAX as int
                },
            decreases self.devices.len() - i,
        {
            proof {
                assert(self.devices@.subrange(0, i + 1).drop_last() =~= self.devices@.subrange(
                    0,
                    i as int,
                ));
                assert(self.devices@.subrange(0, i + 1).last() == self.devices@[i as int]);
            }
            let n = self.devices[i].free_list.len();
            if n <= usize::MAX - sum {
                sum = sum + n;
            } else {
                sum = usize::MAX;
            }
            i = i + 1;
        }
        proof {
            assert(self.devices@.subrange(0, self.devices.len() as int) =~= self.devices@);
        }
        sum
    }

    /// Total allocated blocks across all devices (saturating at the
    /// address space bound).
    pub fn total_allocated(&self) -> (r: usize)
        requires
            self.wf(),
        ensures
            r as int == if spec_total_allocated(self.devices@) <= usize::MAX {
                spec_total_allocated(self.devices@)
            } else {
                usize::MAX as int
            },
    {
        let mut sum: usize = 0;
        let mut i: usize = 0;
        while i < self.devices.len()
            invariant
                i <= self.devices.len(),
                self.wf(),
                sum as int == if spec_total_allocated(self.devices@.subrange(0, i as int))
                    <= usize::MAX {
                    spec_total_allocated(self.devices@.subrange(0, i as int))
                } else {
                    usize::MAX as int
                },
            decreases self.devices.len() - i,
        {
            proof {
                assert(self.devices@.subrange(0, i + 1).drop_last() =~= self.devices@.subrange(
                    0,
                    i as int,
                ));
                assert(self.devices@.subrange(0, i + 1).last() == self.devices@[i as int]);
            }
            let n = self.devices[i].allocated;
            if n <= usize::MAX - sum {
                sum = sum + n;
            } else {
                sum = usize::MAX;
            }
            i = i + 1;
        }
        proof {
            assert(self.devices@.subrange(0, self.devices.len() as int) =~= self.devices@);
        }
        sum
    }

    /// Block size in bytes.
    pub fn block_size(&self) -> (r: usize)
        ensures
            r == self.block_size,
    {
        self.block_size
    }
}

/// Updating one device in place (keeping its id, block size and
/// well-formedness) keeps the whole allocator's device list well
/// formed.
proof fn lemma_update_keeps_wf(devs0: Seq<DeviceAllocator>, devs1: Seq<DeviceAllocator>, idx: int)
    requires
        0 <= idx < devs0.len(),
        devs1 == devs0.update(idx, devs1[idx]),
        devs1.len() == devs0.len(),
    ensures
        forall|d: int| 0 <= d < devs1.len() && d != idx ==> devs1[d] == devs0[d],
{
    assert forall|d: int| 0 <= d < devs1.len() && d != idx implies devs1[d] == devs0[d] by {
        assert(devs0.update(idx, devs1[idx])[d] == devs0[d]);
    }
}

} // verus!
