//! KV block types and the per-sequence block table.
//!
//! A KV block holds a fixed number of tokens worth of key/value tensors
//! for all layers; blocks are the unit of movement between tiers.  The
//! block table maps token positions of one sequence to block ids.

use vstd::prelude::*;

use crate::tier::{CacheFormat, Tier};
use crate::units::{SCALE, SCORE_MAX};

verus! {

/// Unique identifier for a KV block.
pub type BlockId = u64;

/// Hands out fresh, strictly increasing block ids.
///
/// Block ids are never reused, so cross-component log correlation stays
/// unambiguous.
pub struct BlockIdCounter {
    next: u64,
}

impl BlockIdCounter {
    /// The id the counter will hand out next.
    pub closed spec fn spec_next(self) -> u64 {
        self.next
    }

    /// A counter starting at id zero.
    pub fn new() -> (r: BlockIdCounter)
        ensures
            r.spec_next() == 0,
    {
        BlockIdCounter { next: 0 }
    }

    /// Allocate a new unique block id.
    pub fn fresh_id(&mut self) -> (r: BlockId)
        requires
            old(self).spec_next() < u64::MAX,
        ensures
            r == old(self).spec_next(),
            final(self).spec_next() == old(self).spec_next() + 1,
    {
        let id = self.next;
        self.next = self.next + 1;
        id
    }
}

/// Describes where a block lives in GPU memory.
#[derive(Debug, Clone, Copy, PartialEq, Eq, Structural)]
pub struct GpuLocation {
    /// GPU device index.
    pub device_id: usize,

    /// Offset within the KV cache allocation on that device.
    pub offset: usize,

    /// Size in bytes on GPU.
    pub size: usize,
}

/// The payload of a block: exactly one of a GPU location, an in-memory
/// byte buffer, or bytes staged for (or read back from) a block file
/// managed by the disk layer.
pub enum BlockPayload {
    /// Resident in GPU VRAM at the given location.
    Gpu(GpuLocation),
    /// Resident in host RAM.
    Ram(Vec<u8>),
    /// Belongs to an on-disk tier; the buffer holds the bytes that the
    /// disk layer stores in (or returned from) the block's file.
    Disk(Vec<u8>),
}

impl BlockPayload {
    /// Byte length of the payload: the buffer length, or the size of
    /// the GPU region.
    pub open spec fn spec_len(self) -> int {
        match self {
            BlockPayload::Gpu(loc) => loc.size as int,
            BlockPayload::Ram(data) => data.len() as int,
            BlockPayload::Disk(data) => data.len() as int,
        }
    }
}

/// A single KV cache block.
///
/// Each block holds up to `block_size` tokens worth of K and V tensors
/// across all layers.  Blocks are evicted, promoted and compressed as
/// whole units.  The attention score is a fixed-point fraction in
/// `SCALE` units; timestamps come from a monotonic millisecond clock
/// supplied by the caller.
pub struct KvBlock {
    /// Unique identifier for this block.
    pub id: BlockId,

    /// Sequence this block belongs to.
    pub sequence_id: u64,

    /// Starting token position within the sequence.
    pub token_start: usize,

    /// Number of tokens stored in this block (may be fewer than
    /// `block_size` for the last block of a sequence).
    pub token_count: usize,

    /// Current storage tier.
    pub tier: Tier,

    /// Current data format.
    pub format: CacheFormat,

    /// Cumulative attention score (exponential moving average), in
    /// `SCALE` units.
    pub attention_score: u64,

    /// Timestamp of last access, in monotonic milliseconds.
    pub last_access_ms: u64,

    /// Number of times this block has been accessed.
    pub access_count: u64,

    /// Where the block's data lives.
    pub payload: BlockPayload,

    /// Size of the data in bytes, in the current format.
    pub data_size: usize,
}

impl KvBlock {
    /// Internal consistency of a block: the payload variant matches the
    /// tier, the recorded size equals the payload's byte length, and
    /// the attention score is within the admissible fixed-point range.
    pub open spec fn inv(self) -> bool {
        &&& (self.tier is Gpu <==> self.payload is Gpu)
        &&& (self.tier is Ram <==> self.payload is Ram)
        &&& ((self.tier is LocalDisk || self.tier is Nfs) <==> self.payload is Disk)
        &&& self.data_size as int == self.payload.spec_len()
        &&& self.attention_score <= SCORE_MAX
    }

    /// Create a new block that initially lives on GPU, in FP16 format,
    /// with a neutral attention score of one.
    pub fn new_gpu(
        id: BlockId,
        sequence_id: u64,
        token_start: usize,
        token_count: usize,
        gpu_location: GpuLocation,
        data_size: usize,
        now_ms: u64,
    ) -> (r: KvBlock)
        requires
            data_size == gpu_location.size,
        ensures
            r.inv(),
            r.id == id,
            r.sequence_id == sequence_id,
            r.token_start == token_start,
            r.token_count == token_count,
            r.tier is Gpu,
            r.format is Fp16,
            r.attention_score == SCALE,
            r.last_access_ms == now_ms,
            r.access_count == 0,
            r.payload == BlockPayload::Gpu(gpu_location),
            r.data_size == data_size,
    {
        KvBlock {
            id,
            sequence_id,
            token_start,
            token_count,
            tier: Tier::Gpu,
            format: CacheFormat::Fp16,
            attention_score: SCALE,
            last_access_ms: now_ms,
            access_count: 0,
            payload: BlockPayload::Gpu(gpu_location),
            data_size,
        }
    }

    /// Create a new block in host RAM, holding the given bytes.
    pub fn new_ram(
        id: BlockId,
        sequence_id: u64,
        token_start: usize,
        token_count: usize,
        data: Vec<u8>,
        format: CacheFormat,
        now_ms: u64,
    ) -> (r: KvBlock)
        ensures
            r.inv(),
            r.id == id,
            r.sequence_id == sequence_id,
            r.token_start == token_start,
            r.token_count == token_count,
            r.tier is Ram,
            r.format == format,
            r.attention_score == SCALE,
            r.last_access_ms == now_ms,
            r.access_count == 0,
            r.payload == BlockPayload::Ram(data),
            r.data_size == data.len(),
    {
        let data_size = data.len();
        KvBlock {
            id,
            sequence_id,
            token_start,
            token_count,
            tier: Tier::Ram,
            format,
            attention_score: SCALE,
            last_access_ms: now_ms,
            access_count: 0,
            payload: BlockPayload::Ram(data),
            data_size,
        }
    }

    /// Record an access: refresh the timestamp and bump the counter
    /// (saturating at the counter's maximum).
    pub fn touch(&mut self, now_ms: u64)
        ensures
            final(self).last_access_ms == now_ms,
            final(self).access_count as int == if old(self).access_count == u64::MAX {
                u64::MAX as int
            } else {
                old(self).access_count + 1
            },
            *final(self) == (KvBlock {
                last_access_ms: final(self).last_access_ms,
                access_count: final(self).access_count,
                ..*old(self)
            }),
    {
        self.last_access_ms = now_ms;
        if self.access_count < u64::MAX {
            self.access_count = self.access_count + 1;
        }
    }

    /// Update the attention score by an exponential moving average:
    /// the new score is `decay * old + (1 - decay) * sample`, in
    /// fixed-point `SCALE` units.
    pub fn update_attention(&mut self, new_score: u64, decay: u64)
        requires
            old(self).attention_score <= SCORE_MAX,
            new_score <= SCORE_MAX,
            decay <= SCALE,
        ensures
            final(self).attention_score == (decay * old(self).attention_score + (SCALE
                - decay) * new_score) / (SCALE as int),
            final(self).attention_score <= SCORE_MAX,
            *final(self) == (KvBlock {
                attention_score: final(self).attention_score,
                ..*old(self)
            }),
    {
        proof {
            let d = decay as int;
            let a = self.attention_score as int;
            let s = new_score as int;
            assert(d * a + (SCALE - d) * s <= SCALE * SCORE_MAX) by (nonlinear_arith)
                requires
                    0 <= d <= SCALE,
                    0 <= a <= SCORE_MAX,
                    0 <= s <= SCORE_MAX,
            ;
            assert((d * a + (SCALE - d) * s) / (SCALE as int) <= SCORE_MAX) by (nonlinear_arith)
                requires
                    0 <= d * a + (SCALE - d) * s <= SCALE * SCORE_MAX,
            ;
        }
        let old_part = decay * self.attention_score;
        let new_part = (SCALE - decay) * new_score;
        self.attention_score = (old_part + new_part) / SCALE;
    }

    /// End of the token range covered by this block (exclusive).
    pub fn token_end(&self) -> (r: usize)
        requires
            self.token_start + self.token_count <= usize::MAX,
        ensures
            r == self.token_start + self.token_count,
    {
        self.token_start + self.token_count
    }

    /// Whether this block's data is currently resident in the given tier.
    pub fn is_resident_in(&self, tier: Tier) -> (r: bool)
        ensures
            r <==> self.tier == tier,
    {
        self.tier == tier
    }
}

/// The block table maps token positions of one sequence to blocks.
///
/// For each active sequence, the table holds the ordered block ids
/// covering tokens `[0, total_tokens)`.  Tokens are appended and the
/// block size is constant, so the block covering a position is found by
/// one division.
pub struct BlockTable {
    /// Sequence this table belongs to.
    pub sequence_id: u64,

    /// Ordered list of block ids covering token positions `[0, total_tokens)`.
    pub blocks: Vec<BlockId>,

    /// Total tokens in this sequence.
    pub total_tokens: usize,

    /// Block size (tokens per block).
    pub block_size: usize,
}

impl BlockTable {
    /// Well-formedness: every block but the last covers exactly
    /// `block_size` tokens, so the token count lies strictly between
    /// the capacities of `len - 1` and `len` blocks.
    pub open spec fn wf(self) -> bool {
        &&& self.block_size >= 1
        &&& self.total_tokens as int <= self.blocks.len() * self.block_size
        &&& self.blocks.len() > 0 ==> self.total_tokens as int > (self.blocks.len() - 1)
            * self.block_size
        &&& self.blocks.len() == 0 ==> self.total_tokens == 0
    }

    /// Whether every block of the table is full, so that a further
    /// block may be appended.
    pub open spec fn is_aligned(self) -> bool {
        self.total_tokens as int == self.blocks.len() * self.block_size
    }

    /// Create a new empty block table.
    pub fn new(sequence_id: u64, block_size: usize) -> (r: BlockTable)
        requires
            block_size >= 1,
        ensures
            r.wf(),
            r.is_aligned(),
            r.sequence_id == sequence_id,
            r.blocks@ =~= Seq::<BlockId>::empty(),
            r.total_tokens == 0,
            r.block_size == block_size,
    {
        BlockTable { sequence_id, blocks: Vec::new(), total_tokens: 0, block_size }
    }

    /// Append a block covering the next `token_count` tokens.  All
    /// earlier blocks must already be full, so the new block starts at
    /// position `total_tokens`.
    pub fn push(&mut self, block_id: BlockId, token_count: usize)
        requires
            old(self).wf(),
            old(self).is_aligned(),
            1 <= token_count <= old(self).block_size,
            old(self).total_tokens + token_count <= usize::MAX,
        ensures
            final(self).wf(),
            final(self).is_aligned() <==> token_count == old(self).block_size,
            final(self).blocks@ == old(self).blocks@.push(block_id),
            final(self).total_tokens == old(self).total_tokens + token_count,
            final(self).sequence_id == old(self).sequence_id,
            final(self).block_size == old(self).block_size,
    {
        self.blocks.push(block_id);
        self.total_tokens = self.total_tokens + token_count;
        proof {
            let len = old(self).blocks.len() as int;
            let bs = self.block_size as int;
            assert((len + 1) * bs == len * bs + bs) by (nonlinear_arith);
        }
    }

    /// Get the block id that covers a given token position: the
    /// `token_pos / block_size`-th block, exactly when the position is
    /// below the sequence's token count.
    pub fn block_for_token(&self, token_pos: usize) -> (r: Option<BlockId>)
        requires
            self.wf(),
        ensures
            r is Some <==> token_pos < self.total_tokens,
            r matches Some(id) ==> {
                &&& token_pos as int / (self.block_size as int) < self.blocks.len()
                &&& id == self.blocks[token_pos as int / (self.block_size as int)]
            },
            self.total_tokens > 0 && token_pos == self.total_tokens - 1 ==> r == Some(
                self.blocks@.last(),
            ),
    {
        if token_pos >= self.total_tokens {
            return None;
        }
        let idx = token_pos / self.block_size;
        proof {
            let bs = self.block_size as int;
            let len = self.blocks.len() as int;
            assert(token_pos as int / bs < len) by (nonlinear_arith)
                requires
                    bs >= 1,
                    len >= 1,
                    (token_pos as int) < len * bs,
            ;
            if token_pos == self.total_tokens - 1 {
                assert(token_pos as int / bs == len - 1) by (nonlinear_arith)
                    requires
                        bs >= 1,
                        len >= 1,
                        (token_pos as int) < len * bs,
                        token_pos as int + 1 > (len - 1) * bs,
                ;
            }
        }
        Some(self.blocks[idx])
    }

    /// Number of blocks in this sequence.
    pub fn len(&self) -> (r: usize)
        ensures
            r == self.blocks.len(),
    {
        self.blocks.len()
    }

    /// Whether the block table is empty.
    pub fn is_empty(&self) -> (r: bool)
        ensures
            r <==> self.blocks.len() == 0,
    {
        self.blocks.len() == 0
    }

    /// Index of the first block whose tokens intersect positions at or
    /// after `start`, clamped to the table's length.
    pub open spec fn range_lo(self, start: int) -> int {
        if start / (self.block_size as int) < self.blocks.len() {
            start / (self.block_size as int)
        } else {
            self.blocks.len() as int
        }
    }

    /// One past the index of the last block whose tokens intersect
    /// positions below `end`, clamped to the table's length.
    pub open spec fn range_hi(self, end: int) -> int {
        if (end - 1) / (self.block_size as int) + 1 < self.blocks.len() {
            (end - 1) / (self.block_size as int) + 1
        } else {
            self.blocks.len() as int
        }
    }

    /// The block ids covering the token range `[start, end)`, clamped
    /// to the blocks the table holds.
    pub open spec fn spec_blocks_in_range(self, start: int, end: int) -> Seq<BlockId> {
        if end <= start {
            Seq::empty()
        } else {
            self.blocks@.subrange(self.range_lo(start), self.range_hi(end))
        }
    }

    /// Get all block ids whose tokens intersect the range `[start, end)`.
    pub fn blocks_in_range(&self, start: usize, end: usize) -> (r: Vec<BlockId>)
        requires
            self.wf(),
        ensures
            r@ == self.spec_blocks_in_range(start as int, end as int),
    {
        if end <= start {
            return Vec::new();
        }
        let len = self.blocks.len();
        let start_idx = start / self.block_size;
        let lo: usize = if start_idx < len {
            start_idx
        } else {
            len
        };
        let end_idx = (end - 1) / self.block_size;
        let hi: usize = if end_idx < len {
            end_idx + 1
        } else {
            len
        };
        proof {
            let bs = self.block_size as int;
            assert(start as int / bs <= (end - 1) as int / bs) by (nonlinear_arith)
                requires
                    bs >= 1,
                    0 <= (start as int) <= (end - 1) as int,
            ;
        }
        let mut out: Vec<BlockId> = Vec::new();
        let mut i: usize = lo;
        while i < hi
            invariant
                lo <= i <= hi,
                hi <= self.blocks.len(),
                out@ == self.blocks@.subrange(lo as int, i as int),
            decreases hi - i,
        {
            out.push(self.blocks[i]);
            proof {
                assert(out@ =~= self.blocks@.subrange(lo as int, i + 1));
            }
            i = i + 1;
        }
        proof {
            assert(out@ =~= self.spec_blocks_in_range(start as int, end as int));
        }
        out
    }
}

} // verus!
