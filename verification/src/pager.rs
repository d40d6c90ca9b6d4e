//! Tier manager (pager): orchestrates block movement between tiers.
//!
//! The pager is the central coordinator for the tiered KV cache.  It
//! owns every block and every sequence table, keeps per-tier usage
//! accounting exactly in step with the blocks it holds, triggers
//! eviction when a tier exceeds its high watermark, and applies the
//! compression pipeline on every tier transition.

use vstd::prelude::*;

use crate::block::{BlockId, BlockPayload, BlockTable, KvBlock};
use crate::compressor::{payload_bytes, spec_compressed, Compressor};
use crate::evictor::{candidate_of, is_eligible, num_eligible};
use crate::config::Config;
use crate::evictor::Evictor;
use crate::scheduler::{keep_other_blocks, DmaScheduler, TransferOp};
use crate::tier::{CacheFormat, Tier};
use crate::units::{SCALE, SCORE_MAX};

verus! {

/// Errors of pager operations.
#[derive(Debug, Clone, Copy, PartialEq, Eq, Structural)]
pub enum PagerError {
    /// The block or sequence id names nothing.
    NotFound,
    /// The requested tier transition is not available.
    TransitionInvalid { from: Tier, to: Tier },
    /// The payload variant a transition expects is not present.
    MissingPayload,
    /// The byte transformation for the transition failed.
    TransferFailed,
}

/// Per-tier usage statistics.
#[derive(Debug, Clone, Copy, PartialEq, Eq, Structural)]
pub struct TierStats {
    /// Number of blocks in this tier.
    pub block_count: usize,

    /// Total bytes used in this tier.
    pub bytes_used: u64,

    /// Capacity budget in bytes.
    pub capacity: u64,
}

impl Default for TierStats {
    fn default() -> (r: TierStats)
        ensures
            r == (TierStats { block_count: 0, bytes_used: 0, capacity: 0 }),
    {
        TierStats { block_count: 0, bytes_used: 0, capacity: 0 }
    }
}

impl TierStats {
    /// Whether usage exceeds the given watermark fraction (in `SCALE`
    /// units) of the capacity.  A tier without capacity counts as
    /// unused (an unconfigured tier is never a source of eviction), so
    /// it is never above the watermark.
    pub open spec fn spec_above_watermark(self, watermark: u64) -> bool {
        self.capacity > 0 && self.bytes_used * SCALE > watermark * self.capacity
    }

    /// Whether this tier has exceeded the high watermark.
    pub fn above_high_watermark(&self, watermark: u64) -> (r: bool)
        ensures
            r <==> self.spec_above_watermark(watermark),
    {
        if self.capacity == 0 {
            return false;
        }
        proof {
            assert((watermark as int) * (self.capacity as int) < u128::MAX) by (nonlinear_arith)
                requires
                    0 <= watermark as int <= u64::MAX,
                    0 <= self.capacity as int <= u64::MAX,
            ;
            assert((self.bytes_used as int) * (SCALE as int) < u128::MAX) by (nonlinear_arith)
                requires
                    0 <= self.bytes_used as int <= u64::MAX,
            ;
        }
        let used = (self.bytes_used as u128) * (SCALE as u128);
        let limit = (watermark as u128) * (self.capacity as u128);
        used > limit
    }

    /// Whether usage is strictly below the given watermark fraction.
    /// A tier without capacity counts as empty, hence below.
    pub open spec fn spec_below_watermark(self, watermark: u64) -> bool {
        self.capacity == 0 || self.bytes_used * SCALE < watermark * self.capacity
    }

    /// Whether this tier is below the low watermark.
    pub fn below_low_watermark(&self, watermark: u64) -> (r: bool)
        ensures
            r <==> self.spec_below_watermark(watermark),
    {
        if self.capacity == 0 {
            return true;
        }
        proof {
            assert((watermark as int) * (self.capacity as int) < u128::MAX) by (nonlinear_arith)
                requires
                    0 <= watermark as int <= u64::MAX,
                    0 <= self.capacity as int <= u64::MAX,
            ;
            assert((self.bytes_used as int) * (SCALE as int) < u128::MAX) by (nonlinear_arith)
                requires
                    0 <= self.bytes_used as int <= u64::MAX,
            ;
        }
        let used = (self.bytes_used as u128) * (SCALE as u128);
        let limit = (watermark as u128) * (self.capacity as u128);
        used < limit
    }

    /// Usage as a fraction of capacity, in `SCALE` units (saturating;
    /// zero for a tier without capacity).
    pub fn usage_ppm(&self) -> (r: u64)
        ensures
            self.capacity == 0 ==> r == 0,
            self.capacity > 0 ==> r as int == if self.bytes_used * SCALE / (self.capacity as int)
                <= u64::MAX {
                self.bytes_used * SCALE / (self.capacity as int)
            } else {
                u64::MAX as int
            },
    {
        if self.capacity == 0 {
            return 0;
        }
        proof {
            assert((self.bytes_used as int) * (SCALE as int) < u128::MAX) by (nonlinear_arith)
                requires
                    0 <= self.bytes_used as int <= u64::MAX,
            ;
        }
        let scaled = (self.bytes_used as u128) * (SCALE as u128);
        let ratio = scaled / (self.capacity as u128);
        if ratio > u64::MAX as u128 {
            u64::MAX
        } else {
            ratio as u64
        }
    }
}

/// This block's contribution to a tier's byte accounting.
pub open spec fn tier_contrib(b: KvBlock, t: Tier) -> int {
    if b.tier == t {
        b.data_size as int
    } else {
        0
    }
}

/// Total bytes of the blocks resident in a tier.
pub open spec fn tier_bytes(s: Seq<KvBlock>, t: Tier) -> int
    decreases s.len(),
{
    if s.len() == 0 {
        0
    } else {
        tier_bytes(s.drop_last(), t) + tier_contrib(s.last(), t)
    }
}

/// Number of blocks resident in a tier.
pub open spec fn tier_count(s: Seq<KvBlock>, t: Tier) -> int
    decreases s.len(),
{
    if s.len() == 0 {
        0
    } else {
        tier_count(s.drop_last(), t) + if s.last().tier == t {
            1int
        } else {
            0int
        }
    }
}

/// Tier sums are non-negative and counts never exceed the number of
/// blocks.
pub proof fn lemma_sums_bounds(s: Seq<KvBlock>, t: Tier)
    ensures
        0 <= tier_bytes(s, t),
        0 <= tier_count(s, t) <= s.len(),
    decreases s.len(),
{
    if s.len() > 0 {
        lemma_sums_bounds(s.drop_last(), t);
    }
}

/// Appending a block adds exactly its contribution.
pub proof fn lemma_sums_push(s: Seq<KvBlock>, b: KvBlock, t: Tier)
    ensures
        tier_bytes(s.push(b), t) == tier_bytes(s, t) + tier_contrib(b, t),
        tier_count(s.push(b), t) == tier_count(s, t) + if b.tier == t {
            1int
        } else {
            0int
        },
{
    assert(s.push(b).drop_last() =~= s);
    assert(s.push(b).last() == b);
}

/// Replacing the block at one index shifts the sums by the difference
/// of the contributions.
pub proof fn lemma_sums_update(s: Seq<KvBlock>, i: int, b: KvBlock, t: Tier)
    requires
        0 <= i < s.len(),
    ensures
        tier_bytes(s.update(i, b), t) == tier_bytes(s, t) - tier_contrib(s[i], t) + tier_contrib(
            b,
            t,
        ),
        tier_count(s.update(i, b), t) == tier_count(s, t) - (if s[i].tier == t {
            1int
        } else {
            0int
        }) + (if b.tier == t {
            1int
        } else {
            0int
        }),
    decreases s.len(),
{
    let s2 = s.update(i, b);
    if i == s.len() - 1 {
        assert(s2.drop_last() =~= s.drop_last());
        assert(s2.last() == b);
    } else {
        lemma_sums_update(s.drop_last(), i, b, t);
        assert(s2.drop_last() =~= s.drop_last().update(i, b));
        assert(s2.last() == s.last());
    }
}

/// Removing the block at one index subtracts exactly its
/// contribution.
pub proof fn lemma_sums_remove(s: Seq<KvBlock>, i: int, t: Tier)
    requires
        0 <= i < s.len(),
    ensures
        tier_bytes(s.remove(i), t) == tier_bytes(s, t) - tier_contrib(s[i], t),
        tier_count(s.remove(i), t) == tier_count(s, t) - (if s[i].tier == t {
            1int
        } else {
            0int
        }),
    decreases s.len(),
{
    let s2 = s.remove(i);
    if i == s.len() - 1 {
        assert(s2 =~= s.drop_last());
    } else {
        lemma_sums_remove(s.drop_last(), i, t);
        assert(s2.drop_last() =~= s.drop_last().remove(i));
        assert(s2.last() == s.last());
    }
}

/// A block resident in a tier contributes to its sums: the tier's
/// bytes cover the block and its count is positive.
pub proof fn lemma_elem_contributes(s: Seq<KvBlock>, i: int, t: Tier)
    requires
        0 <= i < s.len(),
        s[i].tier == t,
    ensures
        tier_bytes(s, t) >= s[i].data_size,
        tier_count(s, t) >= 1,
    decreases s.len(),
{
    lemma_sums_bounds(s, t);
    if i == s.len() - 1 {
        lemma_sums_bounds(s.drop_last(), t);
    } else {
        lemma_elem_contributes(s.drop_last(), i, t);
    }
}

/// Two different tiers never count more blocks than there are.
pub proof fn lemma_two_tier_counts(s: Seq<KvBlock>, t1: Tier, t2: Tier)
    requires
        t1 != t2,
    ensures
        tier_count(s, t1) + tier_count(s, t2) <= s.len(),
    decreases s.len(),
{
    if s.len() > 0 {
        lemma_two_tier_counts(s.drop_last(), t1, t2);
    }
}

/// Whether some block of the list carries the id.
pub open spec fn seq_has_id(s: Seq<KvBlock>, id: BlockId) -> bool {
    exists|i: int| 0 <= i < s.len() && (#[trigger] s[i]).id == id
}

/// The position of a block carrying the id.
pub open spec fn seq_id_index(s: Seq<KvBlock>, id: BlockId) -> int {
    choose|i: int| 0 <= i < s.len() && (#[trigger] s[i]).id == id
}

/// The block list with the block of the given id removed (unchanged
/// when no block carries it).
pub open spec fn without_id(s: Seq<KvBlock>, id: BlockId) -> Seq<KvBlock> {
    if seq_has_id(s, id) {
        s.remove(seq_id_index(s, id))
    } else {
        s
    }
}

/// The block list after dropping, one after the other, the blocks the
/// listed ids name.
pub open spec fn blocks_after_removal(s: Seq<KvBlock>, ids: Seq<BlockId>) -> Seq<KvBlock>
    decreases ids.len(),
{
    if ids.len() == 0 {
        s
    } else {
        blocks_after_removal(without_id(s, ids[0]), ids.drop_first())
    }
}

/// The listed ids that still named a block when their turn came, in
/// list order.
pub open spec fn removed_in_order(s: Seq<KvBlock>, ids: Seq<BlockId>) -> Seq<BlockId>
    decreases ids.len(),
{
    if ids.len() == 0 {
        Seq::empty()
    } else if seq_has_id(s, ids[0]) {
        seq![ids[0]] + removed_in_order(without_id(s, ids[0]), ids.drop_first())
    } else {
        removed_in_order(s, ids.drop_first())
    }
}

/// Processing one more listed id extends the removal by that id's
/// step.
proof fn lemma_removal_snoc(s: Seq<KvBlock>, ids: Seq<BlockId>, k: int)
    requires
        0 <= k < ids.len(),
    ensures
        blocks_after_removal(s, ids.subrange(0, k + 1)) == without_id(
            blocks_after_removal(s, ids.subrange(0, k)),
            ids[k],
        ),
        removed_in_order(s, ids.subrange(0, k + 1)) == if seq_has_id(
            blocks_after_removal(s, ids.subrange(0, k)),
            ids[k],
        ) {
            removed_in_order(s, ids.subrange(0, k)).push(ids[k])
        } else {
            removed_in_order(s, ids.subrange(0, k))
        },
    decreases k,
{
    let pre1 = ids.subrange(0, k + 1);
    let pre0 = ids.subrange(0, k);
    if k == 0 {
        assert(pre0 =~= Seq::<BlockId>::empty());
        assert(pre1.drop_first() =~= Seq::<BlockId>::empty());
        assert(pre1[0] == ids[0]);
        let s1 = without_id(s, ids[0]);
        assert(blocks_after_removal(s1, pre1.drop_first()) == s1);
        assert(blocks_after_removal(s, pre0) == s);
        assert(removed_in_order(s1, pre1.drop_first()) =~= Seq::<BlockId>::empty());
        assert(removed_in_order(s, pre0) =~= Seq::<BlockId>::empty());
        if seq_has_id(s, ids[0]) {
            assert(removed_in_order(s, pre1) =~= removed_in_order(s, pre0).push(ids[0]));
        } else {
            assert(removed_in_order(s, pre1) =~= removed_in_order(s, pre0));
        }
    } else {
        let s1 = without_id(s, ids[0]);
        lemma_removal_snoc(s1, ids.drop_first(), k - 1);
        assert(pre1[0] == ids[0] && pre0[0] == ids[0]);
        assert(pre1.drop_first() =~= ids.drop_first().subrange(0, k));
        assert(pre0.drop_first() =~= ids.drop_first().subrange(0, k - 1));
        assert(ids.drop_first()[k - 1] == ids[k]);
        if seq_has_id(s, ids[0]) {
            assert(removed_in_order(s, pre1) == seq![ids[0]] + removed_in_order(
                s1,
                pre1.drop_first(),
            ));
            if seq_has_id(blocks_after_removal(s, pre0), ids[k]) {
                assert(removed_in_order(s, pre1) =~= removed_in_order(s, pre0).push(ids[k]));
            } else {
                assert(removed_in_order(s, pre1) =~= removed_in_order(s, pre0));
            }
        } else {
            if seq_has_id(blocks_after_removal(s, pre0), ids[k]) {
                assert(removed_in_order(s, pre1) =~= removed_in_order(s, pre0).push(ids[k]));
            } else {
                assert(removed_in_order(s, pre1) =~= removed_in_order(s, pre0));
            }
        }
    }
}

/// The format a block carries after a configured tier transition:
/// the canonical pipeline stage of the target tier where the
/// configuration enables the stage, the unchanged format otherwise.
pub open spec fn transition_format(
    f: CacheFormat,
    from: Tier,
    to: Tier,
    cfg: crate::config::CompressionConfig,
) -> CacheFormat {
    match (from, to) {
        (Tier::Gpu, Tier::Ram) => if cfg.gpu_to_ram_quantize {
            CacheFormat::Q8
        } else {
            f
        },
        (Tier::Ram, Tier::LocalDisk) | (Tier::Ram, Tier::Nfs) => if cfg.disk_zstd_compression {
            CacheFormat::Q4Zstd
        } else if cfg.ram_to_disk_quantize {
            CacheFormat::Q4
        } else {
            f
        },
        _ => f,
    }
}

/// Compute the post-transition format of a block.
fn transition_format_exec(
    f: CacheFormat,
    from: Tier,
    to: Tier,
    cfg: &crate::config::CompressionConfig,
) -> (r: CacheFormat)
    ensures
        r == transition_format(f, from, to, *cfg),
{
    match (from, to) {
        (Tier::Gpu, Tier::Ram) => if cfg.gpu_to_ram_quantize {
            CacheFormat::Q8
        } else {
            f
        },
        (Tier::Ram, Tier::LocalDisk) | (Tier::Ram, Tier::Nfs) => if cfg.disk_zstd_compression {
            CacheFormat::Q4Zstd
        } else if cfg.ram_to_disk_quantize {
            CacheFormat::Q4
        } else {
            f
        },
        _ => f,
    }
}

/// Removing listed ids that no block carries changes nothing.
proof fn lemma_removal_noop(s: Seq<KvBlock>, ids: Seq<BlockId>)
    requires
        forall|i: int| 0 <= i < s.len() ==> !ids.contains((#[trigger] s[i]).id),
    ensures
        blocks_after_removal(s, ids) == s,
        removed_in_order(s, ids) == Seq::<BlockId>::empty(),
    decreases ids.len(),
{
    if ids.len() > 0 {
        assert(!seq_has_id(s, ids[0])) by {
            if seq_has_id(s, ids[0]) {
                let i = choose|i: int| 0 <= i < s.len() && (#[trigger] s[i]).id == ids[0];
                assert(ids.contains(s[i].id)) by {
                    assert(ids[0] == s[i].id);
                }
            }
        }
        assert forall|i: int|
            0 <= i < s.len() implies !ids.drop_first().contains((#[trigger] s[i]).id) by {
            if ids.drop_first().contains(s[i].id) {
                let j = choose|j: int|
                    0 <= j < ids.drop_first().len() && ids.drop_first()[j] == s[i].id;
                assert(ids[j + 1] == s[i].id);
            }
        }
        lemma_removal_noop(s, ids.drop_first());
    }
}

/// Round trip of insertion and sequence removal: removing the
/// sequence of a freshly inserted block drops exactly that block,
/// restores the block list to its pre-insert state, and with it —
/// through the pager's exact accounting invariant — every tier's
/// block count and byte total.
pub proof fn lemma_insert_then_remove_restores(
    blocks: Seq<KvBlock>,
    b: KvBlock,
    ids: Seq<BlockId>,
)
    requires
        ids.contains(b.id),
        forall|i: int| 0 <= i < blocks.len() ==> !ids.contains((#[trigger] blocks[i]).id),
    ensures
        blocks_after_removal(blocks.push(b), ids) == blocks,
        removed_in_order(blocks.push(b), ids) == seq![b.id],
        forall|t: Tier|
            #![trigger tier_bytes(blocks_after_removal(blocks.push(b), ids), t)]
            tier_bytes(blocks_after_removal(blocks.push(b), ids), t) == tier_bytes(blocks, t)
                && tier_count(blocks_after_removal(blocks.push(b), ids), t) == tier_count(
                blocks,
                t,
            ),
    decreases ids.len(),
{
    let pushed = blocks.push(b);
    assert(ids.len() > 0);
    if ids[0] == b.id {
        assert(seq_has_id(pushed, b.id)) by {
            assert(pushed[blocks.len() as int].id == b.id);
        }
        let w = seq_id_index(pushed, b.id);
        assert(pushed[w].id == b.id);
        if w < blocks.len() {
            assert(ids.contains(blocks[w].id)) by {
                assert(blocks[w].id == b.id);
            }
        }
        assert(w == blocks.len() as int);
        assert(without_id(pushed, ids[0]) =~= blocks);
        assert forall|i: int|
            0 <= i < blocks.len() implies !ids.drop_first().contains(
            (#[trigger] blocks[i]).id,
        ) by {
            if ids.drop_first().contains(blocks[i].id) {
                let j = choose|j: int|
                    0 <= j < ids.drop_first().len() && ids.drop_first()[j] == blocks[i].id;
                assert(ids[j + 1] == blocks[i].id);
            }
        }
        lemma_removal_noop(blocks, ids.drop_first());
        assert(removed_in_order(pushed, ids) =~= seq![b.id]);
    } else {
        assert(!seq_has_id(pushed, ids[0])) by {
            if seq_has_id(pushed, ids[0]) {
                let i = choose|i: int| 0 <= i < pushed.len() && (#[trigger] pushed[i]).id == ids[0];
                if i < blocks.len() {
                    assert(ids.contains(blocks[i].id)) by {
                        assert(ids[0] == blocks[i].id);
                    }
                }
            }
        }
        assert(ids.drop_first().contains(b.id)) by {
            let j = choose|j: int| 0 <= j < ids.len() && ids[j] == b.id;
            assert(ids.drop_first()[j - 1] == b.id);
        }
        assert forall|i: int|
            0 <= i < blocks.len() implies !ids.drop_first().contains(
            (#[trigger] blocks[i]).id,
        ) by {
            if ids.drop_first().contains(blocks[i].id) {
                let j = choose|j: int|
                    0 <= j < ids.drop_first().len() && ids.drop_first()[j] == blocks[i].id;
                assert(ids[j + 1] == blocks[i].id);
            }
        }
        lemma_insert_then_remove_restores(blocks, b, ids.drop_first());
    }
}

/// One eviction round settles its tier: when every block of the tier
/// has the same size and every selected victim commits, removing the
/// round's victim estimate — the excess over the low-watermark target
/// divided by the block size, at least one, at most the block count —
/// leaves at most one block's worth of bytes above the target, or
/// empties the tier.  This is the watermark hysteresis guarantee up
/// to the last block's granularity; a round whose transfers fail (or
/// whose blocks differ in size) may need further rounds.
pub proof fn lemma_eviction_round_settles(count: int, s: int, target_bytes: int)
    requires
        s >= 1,
        count >= 1,
        count * s > target_bytes >= 0,
    ensures
        ({
            let bytes_used = count * s;
            let excess = bytes_used - target_bytes;
            let k1 = if excess / s == 0 {
                1int
            } else {
                excess / s
            };
            let k = if k1 > count {
                count
            } else {
                k1
            };
            bytes_used - k * s <= target_bytes + s
        }),
{
    let bytes_used = count * s;
    let excess = bytes_used - target_bytes;
    let k0 = excess / s;
    let k1 = if k0 == 0 {
        1int
    } else {
        k0
    };
    let k = if k1 > count {
        count
    } else {
        k1
    };
    vstd::arithmetic::div_mod::lemma_fundamental_div_mod(excess, s);
    vstd::arithmetic::div_mod::lemma_mod_division_less_than_divisor(excess, s);
    assert(excess == s * k0 + excess % s);
    assert(0 <= excess % s < s);
    if k1 > count {
        assert(bytes_used - count * s == 0);
    } else if k0 == 0 {
        assert(excess < s) by (nonlinear_arith)
            requires
                s >= 1,
                excess >= 0,
                k0 == 0,
                excess == s * k0 + excess % s,
                0 <= excess % s < s,
        ;
    } else {
        assert(bytes_used - k0 * s == target_bytes + excess % s) by (nonlinear_arith)
            requires
                excess == s * k0 + excess % s,
                excess == bytes_used - target_bytes,
        ;
    }
}

/// The central tier manager.
pub struct Pager {
    /// All blocks, in insertion order.
    pub blocks: Vec<KvBlock>,

    /// Block tables, one per active sequence.
    pub sequences: Vec<BlockTable>,

    /// Usage statistics of the GPU tier.
    pub gpu_stats: TierStats,

    /// Usage statistics of the host RAM tier.
    pub ram_stats: TierStats,

    /// Usage statistics of the local SSD tier.
    pub disk_stats: TierStats,

    /// Usage statistics of the NFS tier.
    pub nfs_stats: TierStats,

    /// Eviction policy.
    pub evictor: Evictor,

    /// Compression engine.
    pub compressor: Compressor,

    /// Configuration.
    pub config: Config,
}

impl Pager {
    /// The statistics record of a tier.
    pub open spec fn spec_stats(self, t: Tier) -> TierStats {
        match t {
            Tier::Gpu => self.gpu_stats,
            Tier::Ram => self.ram_stats,
            Tier::LocalDisk => self.disk_stats,
            Tier::Nfs => self.nfs_stats,
        }
    }

    /// Every block is internally consistent, respects the configured
    /// block size, and carries a unique id.
    pub open spec fn blocks_wf(self) -> bool {
        &&& forall|i: int|
            0 <= i < self.blocks.len() ==> (#[trigger] self.blocks[i]).inv() && self.blocks[
                i
            ].token_count <= self.config.model.block_size
        &&& forall|i: int, j: int|
            0 <= i < j < self.blocks.len() ==> self.blocks[i].id != self.blocks[j].id
    }

    /// Per-tier accounting is exact: for every tier, the recorded
    /// bytes and block count equal the sums over the blocks resident
    /// there.
    pub open spec fn accounting_ok(self) -> bool {
        forall|t: Tier|
            (#[trigger] self.spec_stats(t)).bytes_used == tier_bytes(self.blocks@, t)
                && self.spec_stats(t).block_count == tier_count(self.blocks@, t)
    }

    /// Sequence tables are well formed, use the configured block size,
    /// and carry unique sequence ids.
    pub open spec fn sequences_wf(self) -> bool {
        &&& forall|i: int|
            0 <= i < self.sequences.len() ==> (#[trigger] self.sequences[i]).wf()
                && self.sequences[i].block_size == self.config.model.block_size
        &&& forall|i: int, j: int|
            0 <= i < j < self.sequences.len() ==> self.sequences[i].sequence_id
                != self.sequences[j].sequence_id
    }

    /// The statistics carry the configured capacities.
    pub open spec fn capacities_ok(self) -> bool {
        &&& self.gpu_stats.capacity == self.config.tiers.gpu_vram_budget
        &&& self.ram_stats.capacity == self.config.tiers.host_ram_budget
        &&& self.disk_stats.capacity == self.config.tiers.local_ssd_budget
        &&& self.nfs_stats.capacity == if self.config.tiers.nfs_configured {
            self.config.tiers.nfs_budget
        } else {
            0
        }
    }

    /// Full well-formedness of the pager.
    pub open spec fn wf(self) -> bool {
        &&& self.config.wf()
        &&& self.evictor.config == self.config.eviction
        &&& self.compressor.config == self.config.compression
        &&& self.blocks_wf()
        &&& self.accounting_ok()
        &&& self.sequences_wf()
        &&& self.capacities_ok()
    }

    /// Create a new pager with the given configuration.
    pub fn new(config: Config) -> (r: Pager)
        requires
            config.wf(),
        ensures
            r.wf(),
            r.blocks@ =~= Seq::<KvBlock>::empty(),
            r.sequences@ =~= Seq::<BlockTable>::empty(),
            r.config == config,
            forall|t: Tier| (#[trigger] r.spec_stats(t)).bytes_used == 0 && r.spec_stats(
                t,
            ).block_count == 0,
    {
        let evictor = Evictor::new(
            crate::config::EvictionConfig {
                alpha: config.eviction.alpha,
                beta: config.eviction.beta,
                gamma: config.eviction.gamma,
                attention_ema_decay: config.eviction.attention_ema_decay,
                min_hot_blocks: config.eviction.min_hot_blocks,
            },
        );
        let compressor = Compressor::new(
            crate::config::CompressionConfig {
                gpu_to_ram_quantize: config.compression.gpu_to_ram_quantize,
                ram_to_disk_quantize: config.compression.ram_to_disk_quantize,
                disk_zstd_compression: config.compression.disk_zstd_compression,
                zstd_level: config.compression.zstd_level,
            },
        );
        let gpu_stats = TierStats {
            block_count: 0,
            bytes_used: 0,
            capacity: config.tiers.gpu_vram_budget,
        };
        let ram_stats = TierStats {
            block_count: 0,
            bytes_used: 0,
            capacity: config.tiers.host_ram_budget,
        };
        let disk_stats = TierStats {
            block_count: 0,
            bytes_used: 0,
            capacity: config.tiers.local_ssd_budget,
        };
        let nfs_capacity = if config.tiers.nfs_configured {
            config.tiers.nfs_budget
        } else {
            0
        };
        let nfs_stats = TierStats { block_count: 0, bytes_used: 0, capacity: nfs_capacity };
        Pager {
            blocks: Vec::new(),
            sequences: Vec::new(),
            gpu_stats,
            ram_stats,
            disk_stats,
            nfs_stats,
            evictor,
            compressor,
            config,
        }
    }

    /// Read a tier's statistics.
    pub fn tier_stats(&self, tier: Tier) -> (r: TierStats)
        ensures
            r == self.spec_stats(tier),
    {
        match tier {
            Tier::Gpu => self.gpu_stats,
            Tier::Ram => self.ram_stats,
            Tier::LocalDisk => self.disk_stats,
            Tier::Nfs => self.nfs_stats,
        }
    }

    /// Register a new block in the pager and account for it in its
    /// tier.
    pub fn insert_block(&mut self, block: KvBlock)
        requires
            old(self).wf(),
            block.inv(),
            block.token_count <= old(self).config.model.block_size,
            forall|i: int|
                0 <= i < old(self).blocks.len() ==> (#[trigger] old(self).blocks[i]).id
                    != block.id,
            old(self).spec_stats(block.tier).bytes_used + block.data_size <= u64::MAX,
            old(self).blocks.len() < usize::MAX,
        ensures
            final(self).wf(),
            final(self).blocks@ == old(self).blocks@.push(block),
            final(self).sequences == old(self).sequences,
            final(self).config == old(self).config,
            forall|t: Tier|
                (#[trigger] final(self).spec_stats(t)).bytes_used == old(self).spec_stats(
                    t,
                ).bytes_used + tier_contrib(block, t) && final(self).spec_stats(t).block_count
                    == old(self).spec_stats(t).block_count + (if block.tier == t {
                    1int
                } else {
                    0int
                }),
    {
        proof {
            lemma_sums_bounds(self.blocks@, block.tier);
        }
        let size = block.data_size;
        let tier = block.tier;
        let ghost blocks0 = self.blocks@;
        let ghost b_ghost = block;
        match tier {
            Tier::Gpu => {
                self.gpu_stats.block_count = self.gpu_stats.block_count + 1;
                self.gpu_stats.bytes_used = self.gpu_stats.bytes_used + size as u64;
            },
            Tier::Ram => {
                self.ram_stats.block_count = self.ram_stats.block_count + 1;
                self.ram_stats.bytes_used = self.ram_stats.bytes_used + size as u64;
            },
            Tier::LocalDisk => {
                self.disk_stats.block_count = self.disk_stats.block_count + 1;
                self.disk_stats.bytes_used = self.disk_stats.bytes_used + size as u64;
            },
            Tier::Nfs => {
                self.nfs_stats.block_count = self.nfs_stats.block_count + 1;
                self.nfs_stats.bytes_used = self.nfs_stats.bytes_used + size as u64;
            },
        }
        self.blocks.push(block);
        proof {
            assert forall|t: Tier|
                (#[trigger] self.spec_stats(t)).bytes_used == tier_bytes(self.blocks@, t)
                    && self.spec_stats(t).block_count == tier_count(self.blocks@, t) by {
                lemma_sums_push(blocks0, b_ghost, t);
                assert(old(self).spec_stats(t).bytes_used == tier_bytes(blocks0, t));
                assert(old(self).spec_stats(t).block_count == tier_count(blocks0, t));
            }
            assert forall|i: int, j: int|
                0 <= i < j < self.blocks.len() implies self.blocks[i].id != self.blocks[j].id by {
                if j == self.blocks.len() - 1 {
                    assert(old(self).blocks[i].id != b_ghost.id);
                }
            }
        }
    }

    /// Whether some block carries the id.
    pub open spec fn spec_has_block(self, id: BlockId) -> bool {
        exists|i: int| 0 <= i < self.blocks.len() && (#[trigger] self.blocks[i]).id == id
    }

    /// The position of the block carrying the id.
    pub open spec fn spec_block_index(self, id: BlockId) -> int {
        choose|i: int| 0 <= i < self.blocks.len() && (#[trigger] self.blocks[i]).id == id
    }

    /// Find a block's position by id.
    fn find_block(&self, id: BlockId) -> (r: Option<usize>)
        requires
            self.blocks_wf(),
        ensures
            r is Some <==> self.spec_has_block(id),
            r matches Some(i) ==> i < self.blocks.len() && self.blocks[i as int].id == id && i
                as int == self.spec_block_index(id),
    {
        let mut i: usize = 0;
        while i < self.blocks.len()
            invariant
                i <= self.blocks.len(),
                self.blocks_wf(),
                forall|j: int| 0 <= j < i ==> (#[trigger] self.blocks[j]).id != id,
            decreases self.blocks.len() - i,
        {
            if self.blocks[i].id == id {
                proof {
                    assert(self.spec_has_block(id)) by {
                        assert(self.blocks[i as int].id == id);
                    }
                    let w = self.spec_block_index(id);
                    assert(self.blocks[w].id == id);
                    if w < i as int {
                        assert(self.blocks[w].id != self.blocks[i as int].id);
                    } else if w > i as int {
                        assert(self.blocks[i as int].id != self.blocks[w].id);
                    }
                }
                return Some(i);
            }
            i = i + 1;
        }
        proof {
            assert(!self.spec_has_block(id));
        }
        None
    }

    /// Get a reference to a block by id.
    pub fn get_block(&self, id: BlockId) -> (r: Option<&KvBlock>)
        requires
            self.wf(),
        ensures
            r is Some <==> self.spec_has_block(id),
            r matches Some(b) ==> *b == self.blocks[self.spec_block_index(id)] && b.id == id,
    {
        match self.find_block(id) {
            Some(i) => Some(&self.blocks[i]),
            None => None,
        }
    }

    /// Whether some sequence table carries the id.
    pub open spec fn spec_has_sequence(self, sequence_id: u64) -> bool {
        exists|i: int|
            0 <= i < self.sequences.len() && (#[trigger] self.sequences[i]).sequence_id
                == sequence_id
    }

    /// The position of the table for the sequence.
    pub open spec fn spec_sequence_index(self, sequence_id: u64) -> int {
        choose|i: int|
            0 <= i < self.sequences.len() && (#[trigger] self.sequences[i]).sequence_id
                == sequence_id
    }

    /// Find a sequence table's position by id.
    fn find_sequence(&self, sequence_id: u64) -> (r: Option<usize>)
        requires
            self.sequences_wf(),
        ensures
            r is Some <==> self.spec_has_sequence(sequence_id),
            r matches Some(i) ==> i < self.sequences.len() && self.sequences[
                i as int
            ].sequence_id == sequence_id && i as int == self.spec_sequence_index(sequence_id),
    {
        let mut i: usize = 0;
        while i < self.sequences.len()
            invariant
                i <= self.sequences.len(),
                self.sequences_wf(),
                forall|j: int|
                    0 <= j < i ==> (#[trigger] self.sequences[j]).sequence_id != sequence_id,
            decreases self.sequences.len() - i,
        {
            if self.sequences[i].sequence_id == sequence_id {
                proof {
                    assert(self.spec_has_sequence(sequence_id)) by {
                        assert(self.sequences[i as int].sequence_id == sequence_id);
                    }
                    let w = self.spec_sequence_index(sequence_id);
                    assert(self.sequences[w].sequence_id == sequence_id);
                    if w < i as int {
                        assert(self.sequences[w].sequence_id != self.sequences[
                            i as int
                        ].sequence_id);
                    } else if w > i as int {
                        assert(self.sequences[i as int].sequence_id != self.sequences[
                            w
                        ].sequence_id);
                    }
                }
                return Some(i);
            }
            i = i + 1;
        }
        proof {
            assert(!self.spec_has_sequence(sequence_id));
        }
        None
    }

    /// Get the block table for a sequence.
    pub fn get_sequence(&self, sequence_id: u64) -> (r: Option<&BlockTable>)
        requires
            self.wf(),
        ensures
            r is Some <==> self.spec_has_sequence(sequence_id),
            r matches Some(t) ==> *t == self.sequences[self.spec_sequence_index(sequence_id)]
                && t.sequence_id == sequence_id,
    {
        match self.find_sequence(sequence_id) {
            Some(i) => Some(&self.sequences[i]),
            None => None,
        }
    }

    /// Ensure a (possibly empty) block table exists for the sequence,
    /// creating it lazily with the configured block size.
    pub fn get_or_create_sequence(&mut self, sequence_id: u64)
        requires
            old(self).wf(),
        ensures
            final(self).wf(),
            final(self).spec_has_sequence(sequence_id),
            old(self).spec_has_sequence(sequence_id) ==> *final(self) == *old(self),
            !old(self).spec_has_sequence(sequence_id) ==> {
                &&& final(self).sequences.len() == old(self).sequences.len() + 1
                &&& final(self).sequences@.subrange(0, old(self).sequences.len() as int) == old(
                    self,
                ).sequences@
                &&& final(self).sequences@.last().sequence_id == sequence_id
                &&& final(self).sequences@.last().blocks.len() == 0
                &&& final(self).sequences@.last().total_tokens == 0
                &&& final(self).sequences@.last().block_size == old(self).config.model.block_size
            },
            final(self).blocks == old(self).blocks,
            final(self).config == old(self).config,
            forall|t: Tier| #[trigger] final(self).spec_stats(t) == old(self).spec_stats(t),
    {
        match self.find_sequence(sequence_id) {
            Some(_) => {},
            None => {
                let table = BlockTable::new(sequence_id, self.config.model.block_size);
                self.sequences.push(table);
                proof {
                    let n = self.sequences.len() - 1;
                    assert(self.sequences[n as int].sequence_id == sequence_id);
                    assert(self.sequences@.subrange(0, n as int) =~= old(self).sequences@);
                    assert forall|i: int, j: int|
                        0 <= i < j < self.sequences.len() implies self.sequences[i].sequence_id
                        != self.sequences[j].sequence_id by {
                        if j == n as int {
                            assert(old(self).sequences[i].sequence_id != sequence_id);
                        }
                    }
                }
            },
        }
        proof {
            assert forall|t: Tier|
                (#[trigger] self.spec_stats(t)).bytes_used == tier_bytes(self.blocks@, t)
                    && self.spec_stats(t).block_count == tier_count(self.blocks@, t) by {
                assert(old(self).spec_stats(t).bytes_used == tier_bytes(old(self).blocks@, t));
                assert(old(self).spec_stats(t).block_count == tier_count(old(self).blocks@, t));
                assert(self.spec_stats(t) == old(self).spec_stats(t));
            }
        }
    }

    /// Append a block to a sequence's table, covering the next
    /// `token_count` tokens.
    ///
    /// Returns false (and changes nothing) when the sequence does not
    /// exist, the count is out of range for the configured block size,
    /// the table's last block is not yet full, or the token total
    /// would overflow.
    pub fn push_block_to_sequence(
        &mut self,
        sequence_id: u64,
        block_id: BlockId,
        token_count: usize,
    ) -> (r: bool)
        requires
            old(self).wf(),
        ensures
            final(self).wf(),
            r <==> old(self).spec_has_sequence(sequence_id) && 1 <= token_count <= old(
                self,
            ).config.model.block_size && old(self).sequences[old(self).spec_sequence_index(
                sequence_id,
            )].is_aligned() && old(self).sequences[old(self).spec_sequence_index(
                sequence_id,
            )].total_tokens + token_count <= usize::MAX,
            !r ==> *final(self) == *old(self),
            r ==> {
                let i = old(self).spec_sequence_index(sequence_id);
                let t0 = old(self).sequences[i];
                &&& final(self).sequences@ == old(self).sequences@.update(
                    i,
                    final(self).sequences[i],
                )
                &&& final(self).sequences[i].blocks@ == t0.blocks@.push(block_id)
                &&& final(self).sequences[i].total_tokens == t0.total_tokens + token_count
                &&& final(self).sequences[i].sequence_id == t0.sequence_id
                &&& final(self).sequences[i].block_size == t0.block_size
            },
            final(self).blocks == old(self).blocks,
            final(self).config == old(self).config,
            forall|t: Tier| #[trigger] final(self).spec_stats(t) == old(self).spec_stats(t),
    {
        let idx = match self.find_sequence(sequence_id) {
            Some(i) => i,
            None => {
                return false;
            },
        };
        if token_count < 1 || token_count > self.config.model.block_size {
            return false;
        }
        let ok = {
            let table = &self.sequences[idx];
            let cap_ok = table.total_tokens <= usize::MAX - token_count;
            let fits = table.blocks.len() <= usize::MAX / table.block_size;
            proof {
                let len = table.blocks.len() as int;
                let bs = table.block_size as int;
                if len > usize::MAX as int / bs {
                    assert(len * bs > usize::MAX) by (nonlinear_arith)
                        requires
                            bs >= 1,
                            len > usize::MAX as int / bs,
                    ;
                } else {
                    assert(len * bs <= usize::MAX) by (nonlinear_arith)
                        requires
                            bs >= 1,
                            len >= 0,
                            len <= usize::MAX as int / bs,
                    ;
                }
            }
            cap_ok && fits && table.total_tokens == table.blocks.len() * table.block_size
        };
        if !ok {
            return false;
        }
        let ghost seqs0 = self.sequences@;
        let table = &mut self.sequences[idx];
        table.push(block_id, token_count);
        proof {
            let i = idx as int;
            assert forall|a: int, b: int|
                0 <= a < b < self.sequences.len() implies self.sequences[a].sequence_id
                != self.sequences[b].sequence_id by {
                assert(self.sequences@[a] == seqs0.update(i, self.sequences@[i])[a]);
                assert(self.sequences@[b] == seqs0.update(i, self.sequences@[i])[b]);
            }
            assert forall|a: int|
                0 <= a < self.sequences.len() implies (#[trigger] self.sequences[a]).wf()
                && self.sequences[a].block_size == self.config.model.block_size by {
                assert(self.sequences@[a] == seqs0.update(i, self.sequences@[i])[a]);
            }
            assert forall|t: Tier|
                (#[trigger] self.spec_stats(t)).bytes_used == tier_bytes(self.blocks@, t)
                    && self.spec_stats(t).block_count == tier_count(self.blocks@, t) by {
                assert(old(self).spec_stats(t).bytes_used == tier_bytes(old(self).blocks@, t));
                assert(old(self).spec_stats(t).block_count == tier_count(old(self).blocks@, t));
                assert(self.spec_stats(t) == old(self).spec_stats(t));
            }
        }
        true
    }

    /// Record an access to a block.  Returns whether the block exists.
    pub fn touch(&mut self, block_id: BlockId, now_ms: u64) -> (r: bool)
        requires
            old(self).wf(),
        ensures
            final(self).wf(),
            r <==> old(self).spec_has_block(block_id),
            !r ==> *final(self) == *old(self),
            r ==> {
                let i = old(self).spec_block_index(block_id);
                &&& final(self).blocks@ == old(self).blocks@.update(i, final(self).blocks[i])
                &&& final(self).blocks[i].last_access_ms == now_ms
                &&& final(self).blocks[i] == (KvBlock {
                    last_access_ms: now_ms,
                    access_count: final(self).blocks[i].access_count,
                    ..old(self).blocks[i]
                })
            },
            final(self).sequences == old(self).sequences,
            final(self).config == old(self).config,
            forall|t: Tier| #[trigger] final(self).spec_stats(t) == old(self).spec_stats(t),
    {
        let idx = match self.find_block(block_id) {
            Some(i) => i,
            None => {
                return false;
            },
        };
        let ghost blocks0 = self.blocks@;
        let block = &mut self.blocks[idx];
        block.touch(now_ms);
        proof {
            let i = idx as int;
            assert forall|t: Tier|
                (#[trigger] self.spec_stats(t)).bytes_used == tier_bytes(self.blocks@, t)
                    && self.spec_stats(t).block_count == tier_count(self.blocks@, t) by {
                lemma_sums_update(blocks0, i, self.blocks@[i], t);
                assert(old(self).spec_stats(t).bytes_used == tier_bytes(blocks0, t));
                assert(old(self).spec_stats(t).block_count == tier_count(blocks0, t));
                assert(self.spec_stats(t) == old(self).spec_stats(t));
            }
            assert forall|a: int, b: int|
                0 <= a < b < self.blocks.len() implies self.blocks[a].id != self.blocks[b].id by {
                assert(self.blocks@[a] == blocks0.update(i, self.blocks@[i])[a]);
                assert(self.blocks@[b] == blocks0.update(i, self.blocks@[i])[b]);
            }
            assert forall|j: int|
                0 <= j < self.blocks.len() implies (#[trigger] self.blocks[j]).inv()
                && self.blocks[j].token_count <= self.config.model.block_size by {
                assert(self.blocks@[j] == blocks0.update(i, self.blocks@[i])[j]);
            }
        }
        true
    }

    /// Update a block's attention score by the configured exponential
    /// moving average.  Returns whether the block exists.
    pub fn update_attention(&mut self, block_id: BlockId, new_score: u64, decay: u64) -> (r: bool)
        requires
            old(self).wf(),
            new_score <= SCORE_MAX,
            decay <= SCALE,
        ensures
            final(self).wf(),
            r <==> old(self).spec_has_block(block_id),
            !r ==> *final(self) == *old(self),
            r ==> {
                let i = old(self).spec_block_index(block_id);
                &&& final(self).blocks@ == old(self).blocks@.update(i, final(self).blocks[i])
                &&& final(self).blocks[i].attention_score == (decay * old(
                    self,
                ).blocks[i].attention_score + (SCALE - decay) * new_score) / (SCALE as int)
                &&& final(self).blocks[i] == (KvBlock {
                    attention_score: final(self).blocks[i].attention_score,
                    ..old(self).blocks[i]
                })
            },
            final(self).sequences == old(self).sequences,
            final(self).config == old(self).config,
            forall|t: Tier| #[trigger] final(self).spec_stats(t) == old(self).spec_stats(t),
    {
        let idx = match self.find_block(block_id) {
            Some(i) => i,
            None => {
                return false;
            },
        };
        let ghost blocks0 = self.blocks@;
        let block = &mut self.blocks[idx];
        block.update_attention(new_score, decay);
        proof {
            let i = idx as int;
            assert forall|t: Tier|
                (#[trigger] self.spec_stats(t)).bytes_used == tier_bytes(self.blocks@, t)
                    && self.spec_stats(t).block_count == tier_count(self.blocks@, t) by {
                lemma_sums_update(blocks0, i, self.blocks@[i], t);
                assert(old(self).spec_stats(t).bytes_used == tier_bytes(blocks0, t));
                assert(old(self).spec_stats(t).block_count == tier_count(blocks0, t));
                assert(self.spec_stats(t) == old(self).spec_stats(t));
            }
            assert forall|a: int, b: int|
                0 <= a < b < self.blocks.len() implies self.blocks[a].id != self.blocks[b].id by {
                assert(self.blocks@[a] == blocks0.update(i, self.blocks@[i])[a]);
                assert(self.blocks@[b] == blocks0.update(i, self.blocks@[i])[b]);
            }
            assert forall|j: int|
                0 <= j < self.blocks.len() implies (#[trigger] self.blocks[j]).inv()
                && self.blocks[j].token_count <= self.config.model.block_size by {
                assert(self.blocks@[j] == blocks0.update(i, self.blocks@[i])[j]);
            }
        }
        true
    }

    /// Check whether any tier exceeds its high watermark, hottest
    /// first.  NFS is the terminal tier and is never a source of
    /// eviction.
    pub fn needs_eviction(&self) -> (r: Option<Tier>)
        ensures
            r == if self.gpu_stats.spec_above_watermark(self.config.tiers.high_watermark) {
                Some(Tier::Gpu)
            } else if self.ram_stats.spec_above_watermark(self.config.tiers.high_watermark) {
                Some(Tier::Ram)
            } else if self.disk_stats.spec_above_watermark(self.config.tiers.high_watermark) {
                Some(Tier::LocalDisk)
            } else {
                None::<Tier>
            },
    {
        let wm = self.config.tiers.high_watermark;
        if self.gpu_stats.above_high_watermark(wm) {
            Some(Tier::Gpu)
        } else if self.ram_stats.above_high_watermark(wm) {
            Some(Tier::Ram)
        } else if self.disk_stats.above_high_watermark(wm) {
            Some(Tier::LocalDisk)
        } else {
            None
        }
    }

    /// Subtract a removed block's contribution from one tier's
    /// statistics.
    fn sub_stats(&mut self, tier: Tier, size: usize)
        requires
            old(self).spec_stats(tier).bytes_used >= size,
            old(self).spec_stats(tier).block_count >= 1,
        ensures
            forall|t: Tier|
                #[trigger] final(self).spec_stats(t) == if t == tier {
                    TierStats {
                        block_count: (old(self).spec_stats(t).block_count - 1) as usize,
                        bytes_used: (old(self).spec_stats(t).bytes_used - size) as u64,
                        capacity: old(self).spec_stats(t).capacity,
                    }
                } else {
                    old(self).spec_stats(t)
                },
            final(self).blocks == old(self).blocks,
            final(self).sequences == old(self).sequences,
            final(self).config == old(self).config,
            final(self).evictor == old(self).evictor,
            final(self).compressor == old(self).compressor,
    {
        match tier {
            Tier::Gpu => {
                self.gpu_stats.block_count = self.gpu_stats.block_count - 1;
                self.gpu_stats.bytes_used = self.gpu_stats.bytes_used - size as u64;
            },
            Tier::Ram => {
                self.ram_stats.block_count = self.ram_stats.block_count - 1;
                self.ram_stats.bytes_used = self.ram_stats.bytes_used - size as u64;
            },
            Tier::LocalDisk => {
                self.disk_stats.block_count = self.disk_stats.block_count - 1;
                self.disk_stats.bytes_used = self.disk_stats.bytes_used - size as u64;
            },
            Tier::Nfs => {
                self.nfs_stats.block_count = self.nfs_stats.block_count - 1;
                self.nfs_stats.bytes_used = self.nfs_stats.bytes_used - size as u64;
            },
        }
    }

    /// Add an arriving block's contribution to one tier's statistics.
    fn add_stats(&mut self, tier: Tier, size: usize)
        requires
            old(self).spec_stats(tier).bytes_used + size <= u64::MAX,
            old(self).spec_stats(tier).block_count < usize::MAX,
        ensures
            forall|t: Tier|
                #[trigger] final(self).spec_stats(t) == if t == tier {
                    TierStats {
                        block_count: (old(self).spec_stats(t).block_count + 1) as usize,
                        bytes_used: (old(self).spec_stats(t).bytes_used + size) as u64,
                        capacity: old(self).spec_stats(t).capacity,
                    }
                } else {
                    old(self).spec_stats(t)
                },
            final(self).blocks == old(self).blocks,
            final(self).sequences == old(self).sequences,
            final(self).config == old(self).config,
            final(self).evictor == old(self).evictor,
            final(self).compressor == old(self).compressor,
    {
        match tier {
            Tier::Gpu => {
                self.gpu_stats.block_count = self.gpu_stats.block_count + 1;
                self.gpu_stats.bytes_used = self.gpu_stats.bytes_used + size as u64;
            },
            Tier::Ram => {
                self.ram_stats.block_count = self.ram_stats.block_count + 1;
                self.ram_stats.bytes_used = self.ram_stats.bytes_used + size as u64;
            },
            Tier::LocalDisk => {
                self.disk_stats.block_count = self.disk_stats.block_count + 1;
                self.disk_stats.bytes_used = self.disk_stats.bytes_used + size as u64;
            },
            Tier::Nfs => {
                self.nfs_stats.block_count = self.nfs_stats.block_count + 1;
                self.nfs_stats.bytes_used = self.nfs_stats.bytes_used + size as u64;
            },
        }
    }

    /// Remove a sequence and all its blocks, returning the removed
    /// block ids in the table's order.
    ///
    /// The table is dropped; each block id it lists is looked up in
    /// turn and, when present, its block is dropped and its tier's
    /// accounting reduced by exactly that block's size; blocks of
    /// other sequences are untouched.
    pub fn remove_sequence(&mut self, sequence_id: u64) -> (r: Vec<BlockId>)
        requires
            old(self).wf(),
        ensures
            final(self).wf(),
            !old(self).spec_has_sequence(sequence_id) ==> *final(self) == *old(self) && r.len()
                == 0,
            old(self).spec_has_sequence(sequence_id) ==> {
                let i = old(self).spec_sequence_index(sequence_id);
                let ids = old(self).sequences[i].blocks@;
                &&& final(self).sequences@ == old(self).sequences@.remove(i)
                &&& final(self).blocks@ == blocks_after_removal(old(self).blocks@, ids)
                &&& r@ == removed_in_order(old(self).blocks@, ids)
            },
            final(self).config == old(self).config,
            forall|t: Tier|
                (#[trigger] final(self).spec_stats(t)).capacity == old(self).spec_stats(
                    t,
                ).capacity,
    {
        let idx = match self.find_sequence(sequence_id) {
            Some(i) => i,
            None => {
                return Vec::new();
            },
        };
        let table = self.sequences.remove(idx);
        proof {
            let i = idx as int;
            let seqs0 = old(self).sequences@;
            assert forall|a: int, b: int|
                0 <= a < b < self.sequences.len() implies self.sequences[a].sequence_id
                != self.sequences[b].sequence_id by {
                assert(self.sequences@[a] == seqs0.remove(i)[a]);
                assert(self.sequences@[b] == seqs0.remove(i)[b]);
            }
            assert forall|a: int|
                0 <= a < self.sequences.len() implies (#[trigger] self.sequences[a]).wf()
                && self.sequences[a].block_size == self.config.model.block_size by {
                assert(self.sequences@[a] == seqs0.remove(i)[a]);
            }
        }
        let ids = table.blocks;
        let ghost ids_seq = ids@;
        let ghost orig = self.blocks@;
        let ghost seqs_after = self.sequences@;
        let mut removed: Vec<BlockId> = Vec::new();
        proof {
            assert(ids_seq.subrange(0, 0) =~= Seq::<BlockId>::empty());
            assert forall|t: Tier|
                (#[trigger] self.spec_stats(t)).bytes_used == tier_bytes(self.blocks@, t)
                    && self.spec_stats(t).block_count == tier_count(self.blocks@, t) by {
                assert(old(self).spec_stats(t).bytes_used == tier_bytes(old(self).blocks@, t));
                assert(old(self).spec_stats(t).block_count == tier_count(old(self).blocks@, t));
                assert(self.spec_stats(t) == old(self).spec_stats(t));
            }
            assert forall|t: Tier|
                (#[trigger] self.spec_stats(t)).capacity == old(self).spec_stats(
                    t,
                ).capacity by {
                assert(self.spec_stats(t) == old(self).spec_stats(t));
            }
        }
        let mut k: usize = 0;
        while k < ids.len()
            invariant
                k <= ids.len(),
                ids@ == ids_seq,
                self.blocks@ == blocks_after_removal(orig, ids_seq.subrange(0, k as int)),
                removed@ == removed_in_order(orig, ids_seq.subrange(0, k as int)),
                self.blocks_wf(),
                self.accounting_ok(),
                self.sequences@ == seqs_after,
                self.sequences_wf(),
                self.config == old(self).config,
                self.evictor == old(self).evictor,
                self.compressor == old(self).compressor,
                forall|t: Tier|
                    (#[trigger] self.spec_stats(t)).capacity == old(self).spec_stats(t).capacity,
            decreases ids.len() - k,
        {
            proof {
                lemma_removal_snoc(orig, ids_seq, k as int);
            }
            let id = ids[k];
            match self.find_block(id) {
                Some(i) => {
                    let ghost pre_blocks = self.blocks@;
                    let ghost pre_self = *self;
                    proof {
                        assert(seq_has_id(pre_blocks, id)) by {
                            assert(pre_blocks[i as int].id == id);
                        }
                        let w = seq_id_index(pre_blocks, id);
                        assert(pre_blocks[w].id == id);
                        if w < i as int {
                            assert(pre_blocks[w].id != pre_blocks[i as int].id);
                        } else if w > i as int {
                            assert(pre_blocks[i as int].id != pre_blocks[w].id);
                        }
                        assert(seq_id_index(pre_blocks, id) == i as int);
                    }
                    let b = self.blocks.remove(i);
                    let ghost mid = *self;
                    proof {
                        assert(without_id(pre_blocks, id) == pre_blocks.remove(i as int));
                        lemma_elem_contributes(pre_blocks, i as int, b.tier);
                        assert(pre_self.spec_stats(b.tier).bytes_used == tier_bytes(
                            pre_blocks,
                            b.tier,
                        ));
                        assert(pre_self.spec_stats(b.tier).block_count == tier_count(
                            pre_blocks,
                            b.tier,
                        ));
                        assert(mid.spec_stats(b.tier) == pre_self.spec_stats(b.tier));
                    }
                    self.sub_stats(b.tier, b.data_size);
                    removed.push(b.id);
                    proof {
                        let ii = i as int;
                        assert forall|t: Tier|
                            (#[trigger] self.spec_stats(t)).bytes_used == tier_bytes(
                                self.blocks@,
                                t,
                            ) && self.spec_stats(t).block_count == tier_count(
                                self.blocks@,
                                t,
                            ) by {
                            lemma_sums_remove(pre_blocks, ii, t);
                            assert(pre_self.spec_stats(t).bytes_used == tier_bytes(
                                pre_blocks,
                                t,
                            ));
                            assert(pre_self.spec_stats(t).block_count == tier_count(
                                pre_blocks,
                                t,
                            ));
                            assert(mid.spec_stats(t) == pre_self.spec_stats(t));
                        }
                        assert forall|t: Tier|
                            (#[trigger] self.spec_stats(t)).capacity == old(self).spec_stats(
                                t,
                            ).capacity by {
                            assert(mid.spec_stats(t) == pre_self.spec_stats(t));
                            assert(pre_self.spec_stats(t).capacity == old(self).spec_stats(
                                t,
                            ).capacity);
                        }
                        assert forall|a: int, c: int|
                            0 <= a < c < self.blocks.len() implies self.blocks[a].id
                            != self.blocks[c].id by {
                            if a < ii {
                                assert(self.blocks@[a] == pre_blocks[a]);
                            } else {
                                assert(self.blocks@[a] == pre_blocks[a + 1]);
                            }
                            if c < ii {
                                assert(self.blocks@[c] == pre_blocks[c]);
                            } else {
                                assert(self.blocks@[c] == pre_blocks[c + 1]);
                            }
                        }
                        assert forall|a: int|
                            0 <= a < self.blocks.len() implies (#[trigger] self.blocks[a]).inv()
                            && self.blocks[a].token_count <= self.config.model.block_size by {
                            if a < ii {
                                assert(self.blocks@[a] == pre_blocks[a]);
                            } else {
                                assert(self.blocks@[a] == pre_blocks[a + 1]);
                            }
                        }
                        assert(removed@ =~= removed_in_order(
                            orig,
                            ids_seq.subrange(0, k + 1),
                        ));
                    }
                },
                None => {
                    proof {
                        assert(!seq_has_id(self.blocks@, id)) by {
                            if seq_has_id(self.blocks@, id) {
                                let w = seq_id_index(self.blocks@, id);
                                assert(self.blocks[w].id == id);
                                assert(self.spec_has_block(id));
                            }
                        }
                        assert(without_id(self.blocks@, id) == self.blocks@);
                    }
                },
            }
            k = k + 1;
        }
        proof {
            assert(ids_seq.subrange(0, ids_seq.len() as int) =~= ids_seq);
            assert(self.spec_stats(Tier::Gpu).capacity == old(self).spec_stats(
                Tier::Gpu,
            ).capacity);
            assert(self.spec_stats(Tier::Ram).capacity == old(self).spec_stats(
                Tier::Ram,
            ).capacity);
            assert(self.spec_stats(Tier::LocalDisk).capacity == old(self).spec_stats(
                Tier::LocalDisk,
            ).capacity);
            assert(self.spec_stats(Tier::Nfs).capacity == old(self).spec_stats(
                Tier::Nfs,
            ).capacity);
        }
        removed
    }

    /// Move the block at one position to a new tier, replacing its
    /// payload with the transformed bytes and shifting the accounting
    /// between the two tiers.
    fn move_block_at(&mut self, i: usize, target: Tier, data: Vec<u8>, new_format: CacheFormat)
        requires
            old(self).blocks_wf(),
            old(self).accounting_ok(),
            i < old(self).blocks.len(),
            old(self).blocks[i as int].tier != target,
            !(target is Gpu),
            old(self).spec_stats(target).bytes_used + data.len() <= u64::MAX,
        ensures
            final(self).blocks_wf(),
            final(self).accounting_ok(),
            final(self).blocks.len() == old(self).blocks.len(),
            final(self).blocks@ == old(self).blocks@.update(i as int, final(self).blocks[i as int]),
            final(self).blocks[i as int] == (KvBlock {
                tier: target,
                format: new_format,
                payload: final(self).blocks[i as int].payload,
                data_size: data.len(),
                ..old(self).blocks[i as int]
            }),
            final(self).blocks[i as int].payload == if target is Ram {
                BlockPayload::Ram(data)
            } else {
                BlockPayload::Disk(data)
            },
            final(self).blocks[i as int].inv(),
            final(self).sequences == old(self).sequences,
            final(self).config == old(self).config,
            final(self).evictor == old(self).evictor,
            final(self).compressor == old(self).compressor,
            forall|t: Tier|
                (#[trigger] final(self).spec_stats(t)).capacity == old(self).spec_stats(
                    t,
                ).capacity,
    {
        let ghost blocks0 = self.blocks@;
        let src = self.blocks[i].tier;
        let old_size = self.blocks[i].data_size;
        proof {
            lemma_elem_contributes(blocks0, i as int, src);
            lemma_two_tier_counts(blocks0, target, src);
            lemma_sums_bounds(blocks0, target);
            lemma_sums_bounds(blocks0, src);
        }
        self.sub_stats(src, old_size);
        let ghost mid1 = *self;
        let new_len = data.len();
        self.add_stats(target, new_len);
        let ghost mid2 = *self;
        let payload = if target == Tier::Ram {
            BlockPayload::Ram(data)
        } else {
            BlockPayload::Disk(data)
        };
        let new_block = KvBlock {
            id: self.blocks[i].id,
            sequence_id: self.blocks[i].sequence_id,
            token_start: self.blocks[i].token_start,
            token_count: self.blocks[i].token_count,
            tier: target,
            format: new_format,
            attention_score: self.blocks[i].attention_score,
            last_access_ms: self.blocks[i].last_access_ms,
            access_count: self.blocks[i].access_count,
            payload,
            data_size: new_len,
        };
        self.blocks[i] = new_block;
        proof {
            let ii = i as int;
            let ghost pre = *old(self);
            assert forall|t: Tier|
                (#[trigger] self.spec_stats(t)).bytes_used == tier_bytes(self.blocks@, t)
                    && self.spec_stats(t).block_count == tier_count(self.blocks@, t) by {
                assert(pre.spec_stats(t).bytes_used == tier_bytes(blocks0, t));
                assert(pre.spec_stats(t).block_count == tier_count(blocks0, t));
                assert(mid1.spec_stats(t) == if t == src {
                    TierStats {
                        block_count: (pre.spec_stats(t).block_count - 1) as usize,
                        bytes_used: (pre.spec_stats(t).bytes_used - old_size) as u64,
                        capacity: pre.spec_stats(t).capacity,
                    }
                } else {
                    pre.spec_stats(t)
                });
                assert(mid2.spec_stats(t) == if t == target {
                    TierStats {
                        block_count: (mid1.spec_stats(t).block_count + 1) as usize,
                        bytes_used: (mid1.spec_stats(t).bytes_used + new_len) as u64,
                        capacity: mid1.spec_stats(t).capacity,
                    }
                } else {
                    mid1.spec_stats(t)
                });
                assert(self.spec_stats(t) == mid2.spec_stats(t));
                lemma_sums_update(blocks0, ii, self.blocks@[ii], t);
            }
            assert forall|t: Tier|
                (#[trigger] self.spec_stats(t)).capacity == old(self).spec_stats(
                    t,
                ).capacity by {
                assert(mid1.spec_stats(t).capacity == pre.spec_stats(t).capacity);
                assert(mid2.spec_stats(t).capacity == mid1.spec_stats(t).capacity);
                assert(self.spec_stats(t) == mid2.spec_stats(t));
            }
            assert forall|a: int, b: int|
                0 <= a < b < self.blocks.len() implies self.blocks[a].id != self.blocks[b].id by {
                assert(self.blocks@[a] == blocks0.update(ii, self.blocks@[ii])[a]);
                assert(self.blocks@[b] == blocks0.update(ii, self.blocks@[ii])[b]);
            }
            assert forall|j: int|
                0 <= j < self.blocks.len() implies (#[trigger] self.blocks[j]).inv()
                && self.blocks[j].token_count <= self.config.model.block_size by {
                assert(self.blocks@[j] == blocks0.update(ii, self.blocks@[ii])[j]);
            }
        }
    }

    /// The low-watermark byte target of a tier: the fraction of its
    /// capacity that an eviction round aims below.
    pub open spec fn spec_low_target(self, tier: Tier) -> int {
        self.config.tiers.low_watermark * self.spec_stats(tier).capacity / (SCALE as int)
    }

    /// The round's victim estimate: the excess over the low-watermark
    /// target divided by the tier's average block size, at least one,
    /// at most the tier's block count (meaningful when the tier holds
    /// blocks and exceeds its target).
    pub open spec fn spec_victim_estimate(self, tier: Tier) -> int {
        let st = self.spec_stats(tier);
        let excess = st.bytes_used - self.spec_low_target(tier);
        let avg = st.bytes_used as int / (st.block_count as int);
        let avg1 = if avg == 0 {
            1int
        } else {
            avg
        };
        let k0 = excess / avg1;
        let k1 = if k0 == 0 {
            1int
        } else {
            k0
        };
        if k1 > st.block_count as int {
            st.block_count as int
        } else {
            k1
        }
    }

    /// Run one round of eviction for the given tier.
    ///
    /// Estimates how many blocks must leave to bring the tier back to
    /// the low watermark, asks the evictor for that many victims
    /// (skipping the protected set), compresses each victim for the
    /// next slower tier, and commits the moves.  A victim whose
    /// accounting commit cannot proceed stays exactly in place; the
    /// others still proceed.  Returns the number of blocks evicted: a
    /// round at or below the target (or on an empty tier) changes
    /// nothing, a round never exceeds the victim estimate, and a round
    /// on a byte-holding tier with an eligible block whose committed
    /// size fits the accounting evicts at least one block.  The
    /// coldest tier is never a source of eviction.
    pub fn evict(&mut self, tier: Tier, protected: &Vec<BlockId>, now_ms: u64) -> (r: usize)
        requires
            old(self).wf(),
        ensures
            final(self).wf(),
            final(self).sequences == old(self).sequences,
            final(self).config == old(self).config,
            final(self).blocks.len() == old(self).blocks.len(),
            forall|t: Tier|
                (#[trigger] final(self).spec_stats(t)).capacity == old(self).spec_stats(
                    t,
                ).capacity,
            tier is Nfs ==> *final(self) == *old(self) && r == 0,
            forall|i: int|
                0 <= i < old(self).blocks.len() ==> {
                    let b0 = #[trigger] old(self).blocks[i];
                    let b1 = final(self).blocks[i];
                    &&& b1.id == b0.id
                    &&& b1.sequence_id == b0.sequence_id
                    &&& b1.token_start == b0.token_start
                    &&& b1.token_count == b0.token_count
                    &&& b1.attention_score == b0.attention_score
                    &&& b1.last_access_ms == b0.last_access_ms
                    &&& b1.access_count == b0.access_count
                    &&& (b1 == b0 || {
                        &&& b0.tier == tier
                        &&& !protected@.contains(b0.id)
                        &&& Some(b1.tier) == tier.spec_demote()
                        &&& b1.format == transition_format(
                            b0.format,
                            tier,
                            b1.tier,
                            old(self).config.compression,
                        )
                        &&& b1.inv()
                    })
                },
            r as int == tier_count(old(self).blocks@, tier) - tier_count(
                final(self).blocks@,
                tier,
            ),
            final(self).spec_stats(tier).bytes_used <= old(self).spec_stats(tier).bytes_used,
            tier.spec_demote() is Some && (old(self).spec_stats(tier).bytes_used as int <= old(
                self,
            ).spec_low_target(tier) || old(self).spec_stats(tier).block_count == 0) ==> r == 0
                && *final(self) == *old(self),
            tier.spec_demote() is Some && old(self).spec_stats(tier).bytes_used as int > old(
                self,
            ).spec_low_target(tier) && old(self).spec_stats(tier).block_count > 0 ==> r as int
                <= old(self).spec_victim_estimate(tier),
            ((tier is Ram || tier is LocalDisk) && old(self).spec_stats(tier).bytes_used as int
                > old(self).spec_low_target(tier) && old(self).spec_stats(tier).block_count > 0
                && num_eligible(old(self).blocks@, tier, protected@) > 0 && (forall|i: int|
                0 <= i < old(self).blocks.len() && is_eligible(
                    #[trigger] old(self).blocks[i],
                    tier,
                    protected@,
                ) ==> old(self).spec_stats(tier.spec_demote().unwrap()).bytes_used
                    + spec_compressed(
                    old(self).config.compression,
                    payload_bytes(old(self).blocks[i].payload).unwrap(),
                    tier,
                    tier.spec_demote().unwrap(),
                ).len() <= u64::MAX)) ==> r >= 1,
    {
        let target = match tier.demote() {
            Some(t) => t,
            None => {
                proof {
                    lemma_sums_bounds(self.blocks@, tier);
                }
                return 0;
            },
        };
        let st = self.tier_stats(tier);
        proof {
            let low = self.config.tiers.low_watermark as int;
            let cap = st.capacity as int;
            assert(low * cap / (SCALE as int) <= cap) by (nonlinear_arith)
                requires
                    0 <= low < SCALE,
                    cap >= 0,
            ;
            assert(low * cap < u128::MAX) by (nonlinear_arith)
                requires
                    0 <= low <= u64::MAX,
                    0 <= cap <= u64::MAX,
            ;
        }
        let target_bytes_128 = (self.config.tiers.low_watermark as u128) * (st.capacity as u128)
            / (SCALE as u128);
        let target_bytes = target_bytes_128 as u64;
        proof {
            assert(target_bytes as int == self.spec_low_target(tier));
        }
        if st.bytes_used <= target_bytes {
            return 0;
        }
        let excess = st.bytes_used - target_bytes;
        if st.block_count == 0 {
            return 0;
        }
        let avg = st.bytes_used / (st.block_count as u64);
        let avg1 = if avg == 0 {
            1
        } else {
            avg
        };
        let mut k64 = excess / avg1;
        if k64 == 0 {
            k64 = 1;
        }
        let k: usize = if k64 > st.block_count as u64 {
            st.block_count
        } else {
            k64 as usize
        };
        proof {
            assert(k as int == self.spec_victim_estimate(tier));
        }
        let ghost blocks_orig = self.blocks@;
        let ghost prot = protected@;
        let ghost ecfg = self.evictor.config;
        let ghost n_elig = num_eligible(self.blocks@, tier, prot);
        let victims = self.evictor.select_victims(&self.blocks, tier, k, protected, now_ms);
        let ghost prog = (tier == Tier::Ram || tier == Tier::LocalDisk) && n_elig > 0 && (forall|
            i: int,
        |
            0 <= i < blocks_orig.len() && is_eligible(#[trigger] blocks_orig[i], tier, prot)
                ==> old(self).spec_stats(target).bytes_used + spec_compressed(
                old(self).config.compression,
                payload_bytes(blocks_orig[i].payload).unwrap(),
                tier,
                target,
            ).len() <= u64::MAX);
        let mut evicted: usize = 0;
        let mut v: usize = 0;
        while v < victims.len()
            invariant
                v <= victims.len(),
                self.wf(),
                Some(target) == tier.spec_demote(),
                self.sequences == old(self).sequences,
                self.config == old(self).config,
                self.blocks.len() == old(self).blocks.len(),
                blocks_orig == old(self).blocks@,
                forall|t: Tier|
                    (#[trigger] self.spec_stats(t)).capacity == old(self).spec_stats(t).capacity,
                forall|w: int|
                    0 <= w < victims.len() ==> !protected@.contains(
                        (#[trigger] victims@[w]).block_id,
                    ),
                evicted as int == tier_count(blocks_orig, tier) - tier_count(self.blocks@, tier),
                tier_bytes(self.blocks@, tier) <= tier_bytes(blocks_orig, tier),
                evicted <= v,
                k >= 1,
                prot == protected@,
                ecfg == self.evictor.config,
                n_elig == num_eligible(blocks_orig, tier, prot),
                victims.len() as int == if k as int <= n_elig {
                    k as int
                } else {
                    n_elig
                },
                v == 0 ==> self.blocks@ == blocks_orig,
                v == 0 ==> forall|t: Tier|
                    #[trigger] self.spec_stats(t) == old(self).spec_stats(t),
                victims.len() > 0 ==> (exists|i: int|
                    0 <= i < blocks_orig.len() && is_eligible(#[trigger] blocks_orig[i], tier, prot)
                        && victims@[0] == candidate_of(ecfg, blocks_orig[i], now_ms)),
                prog ==> (tier is Ram || tier is LocalDisk),
                prog ==> n_elig > 0,
                prog ==> (forall|i: int|
                    0 <= i < blocks_orig.len() && is_eligible(#[trigger] blocks_orig[i], tier, prot)
                        ==> old(self).spec_stats(target).bytes_used + spec_compressed(
                        old(self).config.compression,
                        payload_bytes(blocks_orig[i].payload).unwrap(),
                        tier,
                        target,
                    ).len() <= u64::MAX),
                prog ==> (v > 0 ==> evicted >= 1),
                forall|i: int|
                    0 <= i < old(self).blocks.len() ==> {
                        let b0 = #[trigger] old(self).blocks[i];
                        let b1 = self.blocks[i as int];
                        &&& b1.id == b0.id
                        &&& b1.sequence_id == b0.sequence_id
                        &&& b1.token_start == b0.token_start
                        &&& b1.token_count == b0.token_count
                        &&& b1.attention_score == b0.attention_score
                        &&& b1.last_access_ms == b0.last_access_ms
                        &&& b1.access_count == b0.access_count
                        &&& (b1 == b0 || {
                            &&& b0.tier == tier
                            &&& !protected@.contains(b0.id)
                            &&& b1.tier == target
                            &&& b1.format == transition_format(
                                b0.format,
                                tier,
                                target,
                                old(self).config.compression,
                            )
                            &&& b1.inv()
                        })
                    },
            decreases victims.len() - v,
        {
            let vid = victims[v].block_id;
            proof {
                if v == 0 && prog {
                    let i0 = choose|i: int|
                        0 <= i < blocks_orig.len() && is_eligible(
                            #[trigger] blocks_orig[i],
                            tier,
                            prot,
                        ) && victims@[0] == candidate_of(ecfg, blocks_orig[i], now_ms);
                    assert(vid == blocks_orig[i0].id);
                    assert(self.spec_has_block(vid)) by {
                        assert(self.blocks[i0].id == vid);
                    }
                }
            }
            let found = self.find_block(vid);
            if let Some(i) = found {
                if self.blocks[i].is_resident_in(tier) {
                    let compressed = self.compressor.compress_for_tier(&self.blocks[i], target);
                    if let Ok(data) = compressed {
                        let tstats = self.tier_stats(target);
                        if data.len() as u64 <= u64::MAX - tstats.bytes_used {
                            let ghost pre = *self;
                            let fmt = transition_format_exec(
                                self.blocks[i].format,
                                tier,
                                target,
                                &self.config.compression,
                            );
                            proof {
                                lemma_sums_bounds(self.blocks@, tier);
                            }
                            self.move_block_at(i, target, data, fmt);
                            proof {
                                let ii = i as int;
                                lemma_elem_contributes(pre.blocks@, ii, tier);
                                lemma_sums_bounds(blocks_orig, tier);
                                lemma_sums_bounds(pre.blocks@, tier);
                                lemma_sums_update(pre.blocks@, ii, self.blocks@[ii], tier);
                            }
                            evicted = evicted + 1;
                            proof {
                                let ii = i as int;
                                lemma_sums_update(pre.blocks@, ii, self.blocks@[ii], tier);
                                assert(self.spec_stats(Tier::Gpu).capacity == old(
                                    self,
                                ).spec_stats(Tier::Gpu).capacity);
                                assert(self.spec_stats(Tier::Ram).capacity == old(
                                    self,
                                ).spec_stats(Tier::Ram).capacity);
                                assert(self.spec_stats(Tier::LocalDisk).capacity == old(
                                    self,
                                ).spec_stats(Tier::LocalDisk).capacity);
                                assert(self.spec_stats(Tier::Nfs).capacity == old(
                                    self,
                                ).spec_stats(Tier::Nfs).capacity);
                                assert forall|j: int|
                                    0 <= j < old(self).blocks.len() implies {
                                    let b0 = #[trigger] old(self).blocks[j];
                                    let b1 = self.blocks[j];
                                    &&& b1.id == b0.id
                                    &&& b1.sequence_id == b0.sequence_id
                                    &&& b1.token_start == b0.token_start
                                    &&& b1.token_count == b0.token_count
                                    &&& b1.attention_score == b0.attention_score
                                    &&& b1.last_access_ms == b0.last_access_ms
                                    &&& b1.access_count == b0.access_count
                                    &&& (b1 == b0 || {
                                        &&& b0.tier == tier
                                        &&& !protected@.contains(b0.id)
                                        &&& b1.tier == target
                                        &&& b1.format == transition_format(
                                            b0.format,
                                            tier,
                                            target,
                                            old(self).config.compression,
                                        )
                                        &&& b1.inv()
                                    })
                                } by {
                                    assert(self.blocks@[j] == pre.blocks@.update(
                                        ii,
                                        self.blocks@[ii],
                                    )[j]);
                                    if j == ii {
                                        assert(pre.blocks@[ii] == old(self).blocks[ii]);
                                        assert(!protected@.contains(victims@[v as int].block_id));
                                    }
                                }
                            }
                            proof {
                                if prog && v == 0 {
                                    assert(evicted >= 1);
                                }
                            }
                        } else {
                            proof {
                                if v == 0 && prog {
                                    let i0 = choose|i0: int|
                                        0 <= i0 < blocks_orig.len() && is_eligible(
                                            #[trigger] blocks_orig[i0],
                                            tier,
                                            prot,
                                        ) && victims@[0] == candidate_of(
                                            ecfg,
                                            blocks_orig[i0],
                                            now_ms,
                                        );
                                    assert(self.blocks[i as int].id == vid);
                                    assert(self.blocks[i0].id == vid);
                                    if (i as int) < i0 {
                                        assert(self.blocks[i as int].id != self.blocks[i0].id);
                                    } else if (i as int) > i0 {
                                        assert(self.blocks[i0].id != self.blocks[i as int].id);
                                    }
                                    assert(i as int == i0);
                                    assert(data@ == spec_compressed(
                                        old(self).config.compression,
                                        payload_bytes(blocks_orig[i0].payload).unwrap(),
                                        tier,
                                        target,
                                    ));
                                    assert(tstats == old(self).spec_stats(target));
                                    assert(false);
                                }
                            }
                        }
                    } else {
                        proof {
                            if v == 0 && prog {
                                assert(self.blocks@[i as int].inv());
                                assert(payload_bytes(self.blocks@[i as int].payload) is Some);
                                assert(false);
                            }
                        }
                    }
                } else {
                    proof {
                        if v == 0 && prog {
                            let i0 = choose|i0: int|
                                0 <= i0 < blocks_orig.len() && is_eligible(
                                    #[trigger] blocks_orig[i0],
                                    tier,
                                    prot,
                                ) && victims@[0] == candidate_of(ecfg, blocks_orig[i0], now_ms);
                            assert(self.blocks[i as int].id == vid);
                            assert(self.blocks[i0].id == vid);
                            if (i as int) < i0 {
                                assert(self.blocks[i as int].id != self.blocks[i0].id);
                            } else if (i as int) > i0 {
                                assert(self.blocks[i0].id != self.blocks[i as int].id);
                            }
                            assert(i as int == i0);
                            assert(self.blocks[i as int].tier == tier);
                            assert(false);
                        }
                    }
                }
            } else {
                proof {
                    if v == 0 && prog {
                        assert(false);
                    }
                }
            }
            v = v + 1;
        }
        proof {
            if tier == Tier::Ram || tier == Tier::LocalDisk {
                if old(self).spec_stats(tier).bytes_used as int > old(self).spec_low_target(tier)
                    && old(self).spec_stats(tier).block_count > 0 && num_eligible(
                    old(self).blocks@,
                    tier,
                    protected@,
                ) > 0 && (forall|i: int|
                    0 <= i < old(self).blocks.len() && is_eligible(
                        #[trigger] old(self).blocks[i],
                        tier,
                        protected@,
                    ) ==> old(self).spec_stats(tier.spec_demote().unwrap()).bytes_used
                        + spec_compressed(
                        old(self).config.compression,
                        payload_bytes(old(self).blocks[i].payload).unwrap(),
                        tier,
                        tier.spec_demote().unwrap(),
                    ).len() <= u64::MAX) {
                    assert(tier.spec_demote().unwrap() == target);
                    assert(prog) by {
                        assert forall|i: int|
                            0 <= i < blocks_orig.len() && is_eligible(
                                #[trigger] blocks_orig[i],
                                tier,
                                prot,
                            ) implies old(self).spec_stats(target).bytes_used + spec_compressed(
                            old(self).config.compression,
                            payload_bytes(blocks_orig[i].payload).unwrap(),
                            tier,
                            target,
                        ).len() <= u64::MAX by {
                            assert(is_eligible(old(self).blocks[i], tier, protected@));
                        }
                    }
                    assert(victims.len() > 0);
                    assert(evicted >= 1);
                }
            }
        }
        evicted
    }

    /// Whether decompression can succeed on data of the given format:
    /// always for the pure quantization stages, and exactly when the
    /// stream stage decodes (to something addressable) for the cold
    /// format.
    pub open spec fn spec_promotion_ok(f: CacheFormat, d: Seq<u8>) -> bool {
        match f {
            CacheFormat::Q4Zstd => crate::compressor::zstd_decoded(d) is Some && 4
                * crate::compressor::zstd_decoded(d).unwrap().len() <= usize::MAX,
            _ => true,
        }
    }

    /// Promote a block to a hotter tier, lifting its payload back to
    /// FP16 by the decompression pipeline.
    ///
    /// Promotion into GPU VRAM is the transfer layer's job (it needs a
    /// device allocation and a host-to-device copy), so the hottest
    /// admissible target here is host RAM.
    pub fn promote(&mut self, block_id: BlockId, target_tier: Tier) -> (r: Result<
        (),
        PagerError,
    >)
        requires
            old(self).wf(),
        ensures
            final(self).wf(),
            final(self).sequences == old(self).sequences,
            final(self).config == old(self).config,
            forall|t: Tier|
                (#[trigger] final(self).spec_stats(t)).capacity == old(self).spec_stats(
                    t,
                ).capacity,
            !(r is Ok) ==> final(self).blocks@ == old(self).blocks@ && forall|t: Tier|
                #[trigger] final(self).spec_stats(t) == old(self).spec_stats(t),
            !old(self).spec_has_block(block_id) <==> r == Err::<(), PagerError>(
                PagerError::NotFound,
            ),
            old(self).spec_has_block(block_id) ==> {
                let bi = old(self).spec_block_index(block_id);
                let b0 = old(self).blocks[bi];
                &&& (target_tier is Gpu || target_tier.spec_level() >= b0.tier.spec_level()
                    <==> r == Err::<(), PagerError>(
                    PagerError::TransitionInvalid { from: b0.tier, to: target_tier },
                ))
                &&& (!(target_tier is Gpu) && target_tier.spec_level() < b0.tier.spec_level()
                    ==> {
                    let d = payload_bytes(b0.payload).unwrap();
                    let lifted = crate::compressor::spec_decompressed(b0.format, d);
                    &&& (r is Ok <==> 4 * d.len() <= usize::MAX && Self::spec_promotion_ok(
                        b0.format,
                        d,
                    ) && old(self).spec_stats(target_tier).bytes_used + lifted.unwrap().len()
                        <= u64::MAX)
                    &&& (r is Ok ==> {
                        &&& final(self).blocks@ == old(self).blocks@.update(
                            bi,
                            final(self).blocks[bi],
                        )
                        &&& final(self).blocks[bi] == (KvBlock {
                            tier: target_tier,
                            format: CacheFormat::Fp16,
                            payload: final(self).blocks[bi].payload,
                            data_size: final(self).blocks[bi].data_size,
                            ..b0
                        })
                        &&& payload_bytes(final(self).blocks[bi].payload) == Some(
                            lifted.unwrap(),
                        )
                        &&& final(self).blocks[bi].data_size == lifted.unwrap().len()
                        &&& final(self).blocks[bi].inv()
                    })
                    &&& (!(r is Ok) ==> r == Err::<(), PagerError>(PagerError::TransferFailed))
                })
            },
    {
        let bi = match self.find_block(block_id) {
            Some(i) => i,
            None => {
                return Err(PagerError::NotFound);
            },
        };
        let b_tier = self.blocks[bi].tier;
        let b_fmt = self.blocks[bi].format;
        if target_tier == Tier::Gpu || target_tier.level() >= b_tier.level() {
            return Err(PagerError::TransitionInvalid { from: b_tier, to: target_tier });
        }
        let data_len = match &self.blocks[bi].payload {
            BlockPayload::Ram(d) => d.len(),
            BlockPayload::Disk(d) => d.len(),
            BlockPayload::Gpu(_) => {
                proof {
                    assert(false);
                }
                return Err(PagerError::MissingPayload);
            },
        };
        if data_len > usize::MAX / 4 {
            return Err(PagerError::TransferFailed);
        }
        let lifted = {
            let data: &Vec<u8> = match &self.blocks[bi].payload {
                BlockPayload::Ram(d) => d,
                BlockPayload::Disk(d) => d,
                BlockPayload::Gpu(_) => {
                    proof {
                        assert(false);
                    }
                    return Err(PagerError::MissingPayload);
                },
            };
            self.compressor.decompress(data.as_slice(), b_fmt)
        };
        let out = match lifted {
            Ok(v) => v,
            Err(_) => {
                return Err(PagerError::TransferFailed);
            },
        };
        let tstats = self.tier_stats(target_tier);
        if !(out.len() as u64 <= u64::MAX - tstats.bytes_used) {
            return Err(PagerError::TransferFailed);
        }
        self.move_block_at(bi, target_tier, out, CacheFormat::Fp16);
        proof {
            assert(self.spec_stats(Tier::Gpu).capacity == old(self).spec_stats(
                Tier::Gpu,
            ).capacity);
            assert(self.spec_stats(Tier::Ram).capacity == old(self).spec_stats(
                Tier::Ram,
            ).capacity);
            assert(self.spec_stats(Tier::LocalDisk).capacity == old(self).spec_stats(
                Tier::LocalDisk,
            ).capacity);
            assert(self.spec_stats(Tier::Nfs).capacity == old(self).spec_stats(
                Tier::Nfs,
            ).capacity);
        }
        Ok(())
    }

    /// Total number of blocks across all tiers.
    pub fn total_blocks(&self) -> (r: usize)
        ensures
            r == self.blocks.len(),
    {
        self.blocks.len()
    }

    /// Total number of active sequences.
    pub fn total_sequences(&self) -> (r: usize)
        ensures
            r == self.sequences.len(),
    {
        self.sequences.len()
    }
}

/// The transfer queue after cancelling each listed block's queued
/// operations, one block after the other.
pub open spec fn queue_without_blocks(q: Seq<TransferOp>, ids: Seq<BlockId>) -> Seq<TransferOp>
    decreases ids.len(),
{
    if ids.len() == 0 {
        q
    } else {
        queue_without_blocks(keep_other_blocks(q, ids[0]), ids.drop_first())
    }
}

/// Cancelling one more listed block extends the scrub by that block's
/// step.
proof fn lemma_queue_without_snoc(q: Seq<TransferOp>, ids: Seq<BlockId>, k: int)
    requires
        0 <= k < ids.len(),
    ensures
        queue_without_blocks(q, ids.subrange(0, k + 1)) == keep_other_blocks(
            queue_without_blocks(q, ids.subrange(0, k)),
            ids[k],
        ),
    decreases k,
{
    let pre1 = ids.subrange(0, k + 1);
    let pre0 = ids.subrange(0, k);
    if k == 0 {
        assert(pre0 =~= Seq::<BlockId>::empty());
        assert(pre1.drop_first() =~= Seq::<BlockId>::empty());
        assert(pre1[0] == ids[0]);
        let q1 = keep_other_blocks(q, ids[0]);
        assert(queue_without_blocks(q1, pre1.drop_first()) == q1);
        assert(queue_without_blocks(q, pre0) == q);
    } else {
        let q1 = keep_other_blocks(q, ids[0]);
        lemma_queue_without_snoc(q1, ids.drop_first(), k - 1);
        assert(pre1[0] == ids[0] && pre0[0] == ids[0]);
        assert(pre1.drop_first() =~= ids.drop_first().subrange(0, k));
        assert(pre0.drop_first() =~= ids.drop_first().subrange(0, k - 1));
        assert(ids.drop_first()[k - 1] == ids[k]);
    }
}

/// Remove a sequence and drop its blocks' queued transfers.
///
/// A sequence removal must also cancel each removed block's pending
/// transfer operations, so that queued but unstarted moves of freed
/// blocks never run; in-flight transfers are unaffected and run to
/// completion.
pub fn remove_sequence_and_cancel(
    pager: &mut Pager,
    scheduler: &mut DmaScheduler,
    sequence_id: u64,
) -> (r: Vec<BlockId>)
    requires
        old(pager).wf(),
        old(scheduler).wf(),
    ensures
        final(pager).wf(),
        final(scheduler).wf(),
        !old(pager).spec_has_sequence(sequence_id) ==> *final(pager) == *old(pager) && r.len()
            == 0,
        old(pager).spec_has_sequence(sequence_id) ==> {
            let i = old(pager).spec_sequence_index(sequence_id);
            let ids = old(pager).sequences[i].blocks@;
            &&& final(pager).sequences@ == old(pager).sequences@.remove(i)
            &&& final(pager).blocks@ == blocks_after_removal(old(pager).blocks@, ids)
            &&& r@ == removed_in_order(old(pager).blocks@, ids)
        },
        final(pager).config == old(pager).config,
        final(scheduler).queue@ == queue_without_blocks(old(scheduler).queue@, r@),
        forall|j: int|
            0 <= j < final(scheduler).queue.len() ==> !r@.contains(
                (#[trigger] final(scheduler).queue[j]).block_id,
            ),
        final(scheduler).in_flight == old(scheduler).in_flight,
        final(scheduler).max_concurrent == old(scheduler).max_concurrent,
        final(scheduler).stats.total_scheduled == old(scheduler).stats.total_scheduled,
        final(scheduler).stats.total_completed == old(scheduler).stats.total_completed,
        final(scheduler).stats.total_failed == old(scheduler).stats.total_failed,
{
    let removed = pager.remove_sequence(sequence_id);
    let ghost rseq = removed@;
    let ghost q0 = scheduler.queue@;
    proof {
        assert(rseq.subrange(0, 0) =~= Seq::<BlockId>::empty());
    }
    let mut k: usize = 0;
    while k < removed.len()
        invariant
            k <= removed.len(),
            removed@ == rseq,
            scheduler.wf(),
            scheduler.queue@ == queue_without_blocks(q0, rseq.subrange(0, k as int)),
            forall|j: int, m: int|
                #![trigger scheduler.queue@[j], rseq[m]]
                0 <= j < scheduler.queue.len() && 0 <= m < k ==> scheduler.queue[j].block_id
                    != rseq[m],
            scheduler.in_flight == old(scheduler).in_flight,
            scheduler.max_concurrent == old(scheduler).max_concurrent,
            scheduler.stats.total_scheduled == old(scheduler).stats.total_scheduled,
            scheduler.stats.total_completed == old(scheduler).stats.total_completed,
            scheduler.stats.total_failed == old(scheduler).stats.total_failed,
        decreases removed.len() - k,
    {
        proof {
            lemma_queue_without_snoc(q0, rseq, k as int);
        }
        let ghost prev_q = scheduler.queue@;
        let id = removed[k];
        let cancelled = scheduler.cancel_block(id);
        proof {
            crate::scheduler::lemma_keep_other_blocks_props(prev_q, id);
            assert forall|j: int, m: int|
                #![trigger scheduler.queue@[j], rseq[m]]
                0 <= j < scheduler.queue.len() && 0 <= m < k + 1 implies scheduler.queue[
                j
            ].block_id != rseq[m] by {
                assert(prev_q.contains(scheduler.queue@[j]));
                let j0 = choose|j0: int| 0 <= j0 < prev_q.len() && prev_q[j0] == scheduler.queue@[j];
                if m < k {
                    assert(prev_q[j0].block_id != rseq[m]);
                }
            }
        }
        k = k + 1;
    }
    proof {
        assert(rseq.subrange(0, rseq.len() as int) =~= rseq);
        assert forall|j: int|
            0 <= j < scheduler.queue.len() implies !rseq.contains(
            (#[trigger] scheduler.queue[j]).block_id,
        ) by {
            if rseq.contains(scheduler.queue@[j].block_id) {
                let m = choose|m: int| 0 <= m < rseq.len() && rseq[m] == scheduler.queue@[j].block_id;
                assert(scheduler.queue@[j].block_id != rseq[m]);
            }
        }
    }
    removed
}

} // verus!
