//! Eviction policy: decides which blocks to move to slower tiers.
//!
//! Victims are picked by a weighted score combining the inverse
//! cumulative attention (low attention = evictable), the time since
//! last access (old = evictable), and a tier preference (GPU first).
//! Ties on the score are broken by ascending block id, which makes the
//! selection deterministic.

use vstd::prelude::*;

use crate::block::{BlockId, KvBlock};
use crate::config::EvictionConfig;
use crate::tier::Tier;
use crate::units::{MAX_FINITE_INVERSE, SATURATED_INVERSE, SCALE};

verus! {

/// An eviction candidate with its computed priority score.
///
/// Higher score = higher eviction priority (evicted first).
#[derive(Debug, Clone, Copy, PartialEq, Eq, Structural)]
pub struct EvictionCandidate {
    /// The candidate block.
    pub block_id: BlockId,

    /// Weighted eviction priority, a fixed-point value in `SCALE`
    /// units squared.
    pub score: u128,

    /// The tier the block was in when it was scored.
    pub current_tier: Tier,
}

/// Inverse attention component, in `SCALE` units: the reciprocal of
/// the score for a nonzero score, and the saturated sentinel for a
/// zero score.
pub open spec fn spec_inv_attention(score: u64) -> int {
    if score == 0 {
        SATURATED_INVERSE as int
    } else {
        (SCALE as int * SCALE as int) / (score as int)
    }
}

/// Whole seconds elapsed between the block's last access and `now_ms`
/// (zero if the clock reads earlier than the access).
pub open spec fn spec_age_seconds(last_access_ms: u64, now_ms: u64) -> int {
    if now_ms >= last_access_ms {
        (now_ms - last_access_ms) / 1000
    } else {
        0
    }
}

/// The eviction priority of a block at the given time:
/// `alpha * inv_attention + beta * age_seconds + gamma * on_gpu`.
pub open spec fn spec_priority(cfg: EvictionConfig, b: KvBlock, now_ms: u64) -> int {
    cfg.alpha * spec_inv_attention(b.attention_score) + cfg.beta * spec_age_seconds(
        b.last_access_ms,
        now_ms,
    ) + cfg.gamma * (if b.tier is Gpu {
        1int
    } else {
        0int
    })
}

/// The candidate record the evictor produces for a block.
pub open spec fn candidate_of(cfg: EvictionConfig, b: KvBlock, now_ms: u64) -> EvictionCandidate {
    EvictionCandidate {
        block_id: b.id,
        score: spec_priority(cfg, b, now_ms) as u128,
        current_tier: b.tier,
    }
}

/// Strict selection order: higher score first, ties broken by
/// ascending block id.
pub open spec fn precedes(a: EvictionCandidate, b: EvictionCandidate) -> bool {
    a.score > b.score || (a.score == b.score && a.block_id < b.block_id)
}

/// A block the evictor may select: it lives in the tier under eviction
/// and is not protected.
pub open spec fn is_eligible(b: KvBlock, tier: Tier, protected: Seq<BlockId>) -> bool {
    b.tier == tier && !protected.contains(b.id)
}

/// The candidate records of the eligible blocks, in block order.
pub open spec fn candidates_of(
    cfg: EvictionConfig,
    s: Seq<KvBlock>,
    tier: Tier,
    protected: Seq<BlockId>,
    now_ms: u64,
) -> Seq<EvictionCandidate>
    decreases s.len(),
{
    if s.len() == 0 {
        Seq::empty()
    } else {
        let rest = candidates_of(cfg, s.drop_last(), tier, protected, now_ms);
        if is_eligible(s.last(), tier, protected) {
            rest.push(candidate_of(cfg, s.last(), now_ms))
        } else {
            rest
        }
    }
}

/// How many blocks of the sequence are eligible.
pub open spec fn num_eligible(s: Seq<KvBlock>, tier: Tier, protected: Seq<BlockId>) -> int
    decreases s.len(),
{
    if s.len() == 0 {
        0
    } else {
        num_eligible(s.drop_last(), tier, protected) + if is_eligible(s.last(), tier, protected) {
            1int
        } else {
            0int
        }
    }
}

/// Extending the scanned prefix by one block extends its candidate
/// list by at most that block's candidate.
proof fn lemma_candidates_of_step(
    cfg: EvictionConfig,
    s: Seq<KvBlock>,
    i: int,
    tier: Tier,
    protected: Seq<BlockId>,
    now_ms: u64,
)
    requires
        0 <= i < s.len(),
    ensures
        candidates_of(cfg, s.subrange(0, i + 1), tier, protected, now_ms) == if is_eligible(
            s[i],
            tier,
            protected,
        ) {
            candidates_of(cfg, s.subrange(0, i), tier, protected, now_ms).push(
                candidate_of(cfg, s[i], now_ms),
            )
        } else {
            candidates_of(cfg, s.subrange(0, i), tier, protected, now_ms)
        },
{
    let pre = s.subrange(0, i + 1);
    assert(pre.drop_last() =~= s.subrange(0, i));
    assert(pre.last() == s[i]);
}

/// The candidate list is as long as the eligible count, which never
/// exceeds the number of blocks.
proof fn lemma_candidates_of_len(
    cfg: EvictionConfig,
    s: Seq<KvBlock>,
    tier: Tier,
    protected: Seq<BlockId>,
    now_ms: u64,
)
    ensures
        candidates_of(cfg, s, tier, protected, now_ms).len() == num_eligible(s, tier, protected),
        0 <= num_eligible(s, tier, protected) <= s.len(),
    decreases s.len(),
{
    if s.len() > 0 {
        lemma_candidates_of_len(cfg, s.drop_last(), tier, protected, now_ms);
    }
}

/// Every candidate of the list scores an eligible block, every
/// eligible block is scored, and (for blocks with distinct ids) no id
/// repeats.
proof fn lemma_candidates_of_props(
    cfg: EvictionConfig,
    s: Seq<KvBlock>,
    tier: Tier,
    protected: Seq<BlockId>,
    now_ms: u64,
)
    requires
        forall|x: int, y: int| 0 <= x < y < s.len() ==> s[x].id != s[y].id,
    ensures
        forall|k: int|
            #![trigger candidates_of(cfg, s, tier, protected, now_ms)[k]]
            0 <= k < candidates_of(cfg, s, tier, protected, now_ms).len() ==> exists|b: int|
                0 <= b < s.len() && is_eligible(#[trigger] s[b], tier, protected) && candidates_of(
                    cfg,
                    s,
                    tier,
                    protected,
                    now_ms,
                )[k] == candidate_of(cfg, s[b], now_ms),
        forall|b: int|
            0 <= b < s.len() && is_eligible(#[trigger] s[b], tier, protected) ==> candidates_of(
                cfg,
                s,
                tier,
                protected,
                now_ms,
            ).contains(candidate_of(cfg, s[b], now_ms)),
        forall|k: int, l: int|
            0 <= k < l < candidates_of(cfg, s, tier, protected, now_ms).len() ==> candidates_of(
                cfg,
                s,
                tier,
                protected,
                now_ms,
            )[k].block_id != candidates_of(cfg, s, tier, protected, now_ms)[l].block_id,
    decreases s.len(),
{
    let c = candidates_of(cfg, s, tier, protected, now_ms);
    if s.len() > 0 {
        let pre = s.drop_last();
        lemma_candidates_of_props(cfg, pre, tier, protected, now_ms);
        let cp = candidates_of(cfg, pre, tier, protected, now_ms);
        assert forall|b: int|
            0 <= b < s.len() && is_eligible(#[trigger] s[b], tier, protected) implies c.contains(
            candidate_of(cfg, s[b], now_ms),
        ) by {
            if b < pre.len() {
                assert(pre[b] == s[b]);
                assert(cp.contains(candidate_of(cfg, s[b], now_ms)));
                let k = choose|k: int| 0 <= k < cp.len() && cp[k] == candidate_of(cfg, s[b], now_ms);
                assert(c[k] == candidate_of(cfg, s[b], now_ms));
            } else {
                assert(c[c.len() - 1] == candidate_of(cfg, s[b], now_ms));
            }
        }
        assert forall|k: int, l: int| 0 <= k < l < c.len() implies c[k].block_id
            != c[l].block_id by {
            if is_eligible(s.last(), tier, protected) && l == c.len() - 1 {
                let b = choose|b: int|
                    0 <= b < pre.len() && is_eligible(#[trigger] pre[b], tier, protected) && cp[k]
                        == candidate_of(cfg, pre[b], now_ms);
                assert(c[k].block_id == s[b].id);
                assert(c[l].block_id == s[s.len() - 1].id);
            }
        }
    }
}

/// The selection order is total on candidates with distinct ids.
proof fn lemma_precedes_total(a: EvictionCandidate, b: EvictionCandidate)
    requires
        a.block_id != b.block_id,
    ensures
        precedes(a, b) || precedes(b, a),
{
}

/// Remove and return the strongest remaining candidate: the one that
/// precedes every other (candidate ids must be distinct).
fn take_strongest(cands: &mut Vec<EvictionCandidate>) -> (r: EvictionCandidate)
    requires
        old(cands).len() > 0,
        forall|k: int, l: int|
            0 <= k < l < old(cands).len() ==> old(cands)[k].block_id != old(cands)[l].block_id,
    ensures
        old(cands)@.contains(r),
        final(cands).len() == old(cands).len() - 1,
        forall|l: int|
            0 <= l < final(cands).len() ==> old(cands)@.contains(#[trigger] final(cands)@[l]),
        forall|l: int| 0 <= l < final(cands).len() ==> precedes(r, #[trigger] final(cands)@[l]),
        forall|l0: int|
            0 <= l0 < old(cands).len() && old(cands)@[l0] != r ==> final(cands)@.contains(
                #[trigger] old(cands)@[l0],
            ),
        forall|k: int, l: int|
            0 <= k < l < final(cands).len() ==> final(cands)[k].block_id
                != final(cands)[l].block_id,
{
    let ghost orig = cands@;
    let mut best: usize = 0;
    let mut m: usize = 1;
    while m < cands.len()
        invariant
            cands@ == orig,
            orig.len() > 0,
            best < m <= cands.len(),
            forall|k: int, l: int| 0 <= k < l < orig.len() ==> orig[k].block_id != orig[l].block_id,
            forall|x: int|
                0 <= x < m && x != best ==> precedes(orig[best as int], #[trigger] orig[x]),
        decreases cands.len() - m,
    {
        let better = cands[m].score > cands[best].score || (cands[m].score == cands[best].score
            && cands[m].block_id < cands[best].block_id);
        if better {
            proof {
                assert forall|x: int| 0 <= x < m + 1 && x != m implies precedes(
                    orig[m as int],
                    #[trigger] orig[x],
                ) by {
                    if x != best {
                        lemma_precedes_total(orig[m as int], orig[x]);
                        assert(precedes(orig[best as int], orig[x]));
                    }
                }
            }
            best = m;
        } else {
            proof {
                lemma_precedes_total(orig[m as int], orig[best as int]);
            }
        }
        m = m + 1;
    }
    let chosen = cands.swap_remove(best);
    proof {
        assert(orig.contains(chosen)) by {
            assert(orig[best as int] == chosen);
        }
        assert forall|l: int| 0 <= l < cands.len() implies old(cands)@.contains(
            #[trigger] cands@[l],
        ) && precedes(chosen, cands@[l]) by {
            if l == best {
                assert(cands@[l] == orig[orig.len() - 1]);
            } else {
                assert(cands@[l] == orig[l]);
            }
        }
        assert forall|l0: int| 0 <= l0 < orig.len() && orig[l0] != chosen implies cands@.contains(
            #[trigger] orig[l0],
        ) by {
            if l0 == orig.len() - 1 {
                if best < orig.len() - 1 {
                    assert(cands@[best as int] == orig[l0]);
                } else {
                    assert(orig[l0] == chosen);
                }
            } else {
                assert(cands@[l0] == orig[l0]);
            }
        }
        assert forall|k: int, l: int| 0 <= k < l < cands.len() implies cands[k].block_id
            != cands[l].block_id by {
            if l == best {
                assert(cands@[l] == orig[orig.len() - 1]);
                assert(cands@[k] == orig[k as int]);
            } else if k == best {
                assert(cands@[k] == orig[orig.len() - 1]);
                assert(cands@[l] == orig[l as int]);
            }
        }
    }
    chosen
}

/// The eviction policy engine.
pub struct Evictor {
    /// Eviction weights (read-only).
    pub config: EvictionConfig,
}

impl Evictor {
    /// Create an evictor with the given weights.
    pub fn new(config: EvictionConfig) -> (r: Evictor)
        ensures
            r.config == config,
    {
        Evictor { config }
    }

    /// Compute the eviction priority of a block at the given time.
    ///
    /// A zero-attention block receives the saturated inverse-attention
    /// sentinel, so (for a positive attention weight) it outranks
    /// every block with nonzero attention unless age makes up the
    /// difference.
    pub fn compute_priority(&self, block: &KvBlock, now_ms: u64) -> (r: u128)
        requires
            self.config.wf(),
        ensures
            r as int == spec_priority(self.config, *block, now_ms),
    {
        let inv: u64 = if block.attention_score == 0 {
            SATURATED_INVERSE
        } else {
            (SCALE * SCALE) / block.attention_score
        };
        let age_s: u64 = if now_ms >= block.last_access_ms {
            (now_ms - block.last_access_ms) / 1000
        } else {
            0
        };
        let tier_component: u64 = if block.tier == Tier::Gpu {
            1
        } else {
            0
        };
        proof {
            let a = self.config.alpha as int;
            let b = self.config.beta as int;
            let g = self.config.gamma as int;
            assert(a * (inv as int) + b * (age_s as int) + g * (tier_component as int)
                < u128::MAX) by (nonlinear_arith)
                requires
                    0 <= a <= SCALE,
                    0 <= b <= SCALE,
                    0 <= g <= SCALE,
                    0 <= inv <= SATURATED_INVERSE,
                    0 <= age_s <= u64::MAX,
                    0 <= tier_component <= 1,
            ;
        }
        (self.config.alpha as u128) * (inv as u128) + (self.config.beta as u128) * (age_s as u128)
            + (self.config.gamma as u128) * (tier_component as u128)
    }

    /// Score every eligible block, in block order.
    fn scored_candidates(
        &self,
        blocks: &Vec<KvBlock>,
        tier: Tier,
        protected: &Vec<BlockId>,
        now_ms: u64,
    ) -> (r: Vec<EvictionCandidate>)
        requires
            self.config.wf(),
        ensures
            r@ == candidates_of(self.config, blocks@, tier, protected@, now_ms),
    {
        let ghost cfg = self.config;
        let ghost prot = protected@;
        let mut cands: Vec<EvictionCandidate> = Vec::new();
        let mut i: usize = 0;
        while i < blocks.len()
            invariant
                i <= blocks.len(),
                cfg == self.config,
                prot == protected@,
                cfg.wf(),
                cands@ == candidates_of(cfg, blocks@.subrange(0, i as int), tier, prot, now_ms),
            decreases blocks.len() - i,
        {
            proof {
                lemma_candidates_of_step(cfg, blocks@, i as int, tier, prot, now_ms);
            }
            let block = &blocks[i];
            let mut in_protected = false;
            let mut p: usize = 0;
            while p < protected.len()
                invariant
                    p <= protected.len(),
                    prot == protected@,
                    in_protected <==> exists|q: int| 0 <= q < p && #[trigger] prot[q] == block.id,
                decreases protected.len() - p,
            {
                if protected[p] == block.id {
                    in_protected = true;
                    proof {
                        assert(prot[p as int] == block.id);
                    }
                }
                p = p + 1;
            }
            proof {
                assert(in_protected <==> prot.contains(block.id));
            }
            if block.is_resident_in(tier) && !in_protected {
                let score = self.compute_priority(block, now_ms);
                cands.push(EvictionCandidate { block_id: block.id, score, current_tier: tier });
                proof {
                    assert(is_eligible(blocks@[i as int], tier, prot));
                    assert(cands@.last() == candidate_of(cfg, blocks@[i as int], now_ms));
                }
            } else {
                proof {
                    assert(!is_eligible(blocks@[i as int], tier, prot));
                }
            }
            i = i + 1;
        }
        proof {
            assert(blocks@.subrange(0, blocks.len() as int) =~= blocks@);
        }
        cands
    }

    /// Select up to `count` blocks to evict from the given tier.
    ///
    /// Returns candidates ordered by descending eviction priority
    /// (ties by ascending block id): exactly the top of the eligible
    /// blocks, never one from the protected set, scored once against
    /// the clock value passed in so the ordering is stable within the
    /// round.
    #[verifier::rlimit(60)]
    pub fn select_victims(
        &self,
        blocks: &Vec<KvBlock>,
        tier: Tier,
        count: usize,
        protected: &Vec<BlockId>,
        now_ms: u64,
    ) -> (r: Vec<EvictionCandidate>)
        requires
            self.config.wf(),
            forall|i: int, j: int| 0 <= i < j < blocks.len() ==> blocks[i].id != blocks[j].id,
        ensures
            r.len() == if count as int <= num_eligible(blocks@, tier, protected@) {
                count as int
            } else {
                num_eligible(blocks@, tier, protected@)
            },
            forall|k: int|
                #![trigger r@[k]]
                0 <= k < r.len() ==> exists|i: int|
                    0 <= i < blocks.len() && is_eligible(#[trigger] blocks[i], tier, protected@)
                        && r[k] == candidate_of(self.config, blocks[i], now_ms),
            forall|k: int| 0 <= k < r.len() ==> !protected@.contains(#[trigger] r@[k].block_id),
            forall|k: int, l: int| 0 <= k < l < r.len() ==> precedes(r[k], r[l]),
            forall|i: int|
                #![trigger blocks@[i]]
                0 <= i < blocks.len() && is_eligible(blocks[i], tier, protected@) && !r@.contains(
                    candidate_of(self.config, blocks[i], now_ms),
                ) ==> (forall|k: int|
                    #![trigger r@[k]]
                    0 <= k < r.len() ==> precedes(
                        r@[k],
                        candidate_of(self.config, blocks[i], now_ms),
                    )),
    {
        let ghost cfg = self.config;
        let ghost prot = protected@;
        let mut cands = self.scored_candidates(blocks, tier, protected, now_ms);
        let ghost all0 = cands@;
        proof {
            lemma_candidates_of_len(cfg, blocks@, tier, prot, now_ms);
            lemma_candidates_of_props(cfg, blocks@, tier, prot, now_ms);
        }

        let mut result: Vec<EvictionCandidate> = Vec::new();
        while result.len() < count && cands.len() > 0
            invariant
                result.len() <= count,
                result.len() + cands.len() == all0.len(),
                forall|k: int| 0 <= k < result.len() ==> all0.contains(#[trigger] result@[k]),
                forall|k: int| 0 <= k < cands.len() ==> all0.contains(#[trigger] cands@[k]),
                forall|l0: int|
                    0 <= l0 < all0.len() ==> result@.contains(#[trigger] all0[l0])
                        || cands@.contains(all0[l0]),
                forall|k: int, l: int|
                    0 <= k < l < cands.len() ==> cands[k].block_id != cands[l].block_id,
                forall|k: int, l: int| 0 <= k < l < result.len() ==> precedes(result[k], result[l]),
                forall|k: int, l: int|
                    0 <= k < result.len() && 0 <= l < cands.len() ==> precedes(
                        #[trigger] result@[k],
                        #[trigger] cands@[l],
                    ),
            decreases count - result.len(),
        {
            let ghost old_cands = cands@;
            let ghost old_result = result@;
            let chosen = take_strongest(&mut cands);
            result.push(chosen);
            proof {
                assert(all0.contains(chosen)) by {
                    let j = choose|j: int| 0 <= j < old_cands.len() && old_cands[j] == chosen;
                    assert(all0.contains(old_cands[j]));
                }
                assert forall|l0: int| 0 <= l0 < all0.len() implies result@.contains(
                    #[trigger] all0[l0],
                ) || cands@.contains(all0[l0]) by {
                    if old_result.contains(all0[l0]) {
                        let j = choose|j: int|
                            0 <= j < old_result.len() && old_result[j] == all0[l0];
                        assert(result@[j] == all0[l0]);
                    } else if old_cands.contains(all0[l0]) {
                        let j = choose|j: int| 0 <= j < old_cands.len() && old_cands[j] == all0[l0];
                        if old_cands[j] == chosen {
                            assert(result@[result.len() - 1] == all0[l0]);
                        } else {
                            assert(cands@.contains(old_cands[j]));
                        }
                    }
                }
                assert forall|k: int, l: int| 0 <= k < l < result.len() implies precedes(
                    result@[k],
                    result@[l],
                ) by {
                    if l == result.len() - 1 {
                        let j = choose|j: int| 0 <= j < old_cands.len() && old_cands[j] == chosen;
                        assert(precedes(old_result[k], old_cands[j]));
                    }
                }
                assert forall|k: int, l: int|
                    0 <= k < result.len() && 0 <= l < cands.len() implies precedes(
                    #[trigger] result@[k],
                    #[trigger] cands@[l],
                ) by {
                    if k < result.len() - 1 {
                        assert(old_cands.contains(cands@[l]));
                        let j = choose|j: int| 0 <= j < old_cands.len() && old_cands[j] == cands@[l];
                        assert(precedes(old_result[k], old_cands[j]));
                    }
                }
            }
        }

        proof {
            if cands.len() > 0 {
                assert(result.len() == count);
            }
            // Soundness: each selected candidate scores an eligible block.
            assert forall|k: int| #![trigger result@[k]] 0 <= k < result.len() implies exists|
                i: int,
            |
                0 <= i < blocks.len() && is_eligible(#[trigger] blocks[i], tier, prot)
                    && result@[k] == candidate_of(cfg, blocks[i], now_ms) by {
                let l0 = choose|l0: int| 0 <= l0 < all0.len() && all0[l0] == result@[k];
            }
            // No protected id is ever selected.
            assert forall|k: int| 0 <= k < result.len() implies !prot.contains(
                #[trigger] result@[k].block_id,
            ) by {
                let i = choose|i: int|
                    0 <= i < blocks.len() && is_eligible(#[trigger] blocks[i], tier, prot)
                        && result@[k] == candidate_of(cfg, blocks[i], now_ms);
                assert(result@[k].block_id == blocks[i].id);
            }
            // Unselected eligible blocks rank below everything selected.
            assert forall|i: int|
                #![trigger blocks@[i]]
                0 <= i < blocks.len() && is_eligible(blocks@[i], tier, prot) && !result@.contains(
                    candidate_of(cfg, blocks@[i], now_ms),
                ) implies (forall|k: int|
                #![trigger result@[k]]
                0 <= k < result.len() ==> precedes(
                    result@[k],
                    candidate_of(cfg, blocks@[i], now_ms),
                )) by {
                let c = candidate_of(cfg, blocks@[i], now_ms);
                assert(all0.contains(c));
                let l0 = choose|l0: int| 0 <= l0 < all0.len() && all0[l0] == c;
                assert(result@.contains(all0[l0]) || cands@.contains(all0[l0]));
                let j = choose|j: int| 0 <= j < cands.len() && cands@[j] == c;
                assert forall|k: int| #![trigger result@[k]] 0 <= k < result.len() implies precedes(
                    result@[k],
                    c,
                ) by {
                    assert(precedes(result@[k], cands@[j]));
                }
            }
        }
        result
    }
}

/// A zero-attention block sorts ahead of any block with nonzero
/// attention, whenever the attention weight is positive and the other
/// block's age advantage cannot bridge the saturation gap.
pub proof fn lemma_zero_attention_sorts_first(
    cfg: EvictionConfig,
    zero_block: KvBlock,
    other: KvBlock,
    now_ms: u64,
)
    requires
        cfg.wf(),
        cfg.alpha >= 1,
        zero_block.attention_score == 0,
        other.attention_score >= 1,
        cfg.beta * spec_age_seconds(other.last_access_ms, now_ms) + cfg.gamma < cfg.alpha * (
        SATURATED_INVERSE - MAX_FINITE_INVERSE),
    ensures
        spec_priority(cfg, zero_block, now_ms) > spec_priority(cfg, other, now_ms),
        precedes(candidate_of(cfg, zero_block, now_ms), candidate_of(cfg, other, now_ms)),
{
    let a = cfg.alpha as int;
    let be = cfg.beta as int;
    let g = cfg.gamma as int;
    let inv_o = spec_inv_attention(other.attention_score);
    let age_z = spec_age_seconds(zero_block.last_access_ms, now_ms);
    let age_o = spec_age_seconds(other.last_access_ms, now_ms);
    let tz = if zero_block.tier is Gpu {
        1int
    } else {
        0int
    };
    let to = if other.tier is Gpu {
        1int
    } else {
        0int
    };
    assert(inv_o <= MAX_FINITE_INVERSE as int) by (nonlinear_arith)
        requires
            other.attention_score >= 1,
            inv_o == (SCALE as int * SCALE as int) / (other.attention_score as int),
    ;
    assert(a * (SATURATED_INVERSE as int) + be * age_z + g * tz > a * inv_o + be * age_o + g
        * to) by (nonlinear_arith)
        requires
            a >= 1,
            be >= 0,
            g >= 0,
            age_z >= 0,
            age_o >= 0,
            0 <= tz <= 1,
            0 <= to <= 1,
            inv_o <= MAX_FINITE_INVERSE as int,
            be * age_o + g < a * (SATURATED_INVERSE - MAX_FINITE_INVERSE),
    ;
    lemma_priority_fits(cfg, zero_block, now_ms);
    lemma_priority_fits(cfg, other, now_ms);
}

/// Priorities fit the 128-bit score field.
proof fn lemma_priority_fits(cfg: EvictionConfig, b: KvBlock, now_ms: u64)
    requires
        cfg.wf(),
    ensures
        0 <= spec_priority(cfg, b, now_ms) <= u128::MAX,
{
    let a = cfg.alpha as int;
    let be = cfg.beta as int;
    let g = cfg.gamma as int;
    let inv = spec_inv_attention(b.attention_score);
    let age = spec_age_seconds(b.last_access_ms, now_ms);
    let t = if b.tier is Gpu {
        1int
    } else {
        0int
    };
    assert(0 <= inv <= SATURATED_INVERSE) by (nonlinear_arith)
        requires
            inv == if b.attention_score == 0 {
                SATURATED_INVERSE as int
            } else {
                (SCALE as int * SCALE as int) / (b.attention_score as int)
            },
    ;
    assert(0 <= a * inv + be * age + g * t < u128::MAX) by (nonlinear_arith)
        requires
            0 <= a <= SCALE,
            0 <= be <= SCALE,
            0 <= g <= SCALE,
            0 <= inv <= SATURATED_INVERSE,
            0 <= age <= u64::MAX,
            0 <= t <= 1,
    ;
}

} // verus!
