//! Prefetching: predicts which cold or warm blocks will be needed soon
//! and asks for them to be promoted before attention needs them.
//!
//! The sliding-window strategy keeps the blocks covering the last
//! `hot_window_tokens` tokens on GPU and stages the blocks just before
//! the window into RAM.  The produced request list is sorted by
//! priority descending, stable on ties.

use vstd::prelude::*;

use crate::block::{BlockId, BlockTable};
use crate::config::PrefetchConfig;
use crate::tier::Tier;

verus! {

/// A prefetch request: promote a block from its current tier toward
/// the given target.
#[derive(Debug, Clone, Copy, PartialEq, Eq, Structural)]
pub struct PrefetchRequest {
    /// The block to promote.
    pub block_id: BlockId,

    /// Where the block currently lives.
    pub current_tier: Tier,

    /// Where it should go.
    pub target_tier: Tier,

    /// Request priority (higher = more urgent).  Hot-window requests
    /// get `100 - i` for window offset `i`; look-ahead requests get 50.
    pub priority: i128,
}

/// Whether the tier map holds an entry for the block.
pub open spec fn tiers_has(tiers: Seq<(BlockId, Tier)>, id: BlockId) -> bool {
    exists|j: int| 0 <= j < tiers.len() && (#[trigger] tiers[j]).0 == id
}

/// The tier the map reports for the block, if any.
pub open spec fn tier_lookup(tiers: Seq<(BlockId, Tier)>, id: BlockId) -> Option<Tier> {
    if tiers_has(tiers, id) {
        Some(tiers[choose|j: int| 0 <= j < tiers.len() && (#[trigger] tiers[j]).0 == id].1)
    } else {
        None
    }
}

/// First token position of the hot window at the given decode position.
pub open spec fn spec_hot_start(cfg: PrefetchConfig, pos: int) -> int {
    if pos >= cfg.hot_window_tokens {
        pos - cfg.hot_window_tokens
    } else {
        0
    }
}

/// The promotion request(s) a hot-window block at window offset `i`
/// contributes: one GPU promotion if it is known to live off-GPU.
pub open spec fn hot_entry(
    hot: Seq<BlockId>,
    tiers: Seq<(BlockId, Tier)>,
    i: int,
) -> Seq<PrefetchRequest> {
    match tier_lookup(tiers, hot[i]) {
        Some(t) => if t is Gpu {
            Seq::empty()
        } else {
            seq![
                PrefetchRequest {
                    block_id: hot[i],
                    current_tier: t,
                    target_tier: Tier::Gpu,
                    priority: (100 - i) as i128,
                },
            ]
        },
        None => Seq::empty(),
    }
}

/// Hot-window promotion requests for window offsets `[i, end)`.
pub open spec fn hot_promos(
    hot: Seq<BlockId>,
    tiers: Seq<(BlockId, Tier)>,
    i: int,
    end: int,
) -> Seq<PrefetchRequest>
    decreases end - i,
{
    if i >= end {
        Seq::empty()
    } else {
        hot_entry(hot, tiers, i) + hot_promos(hot, tiers, i + 1, end)
    }
}

/// The staging request a look-ahead block contributes: a RAM promotion
/// if it is known to live on one of the disk tiers.
pub open spec fn ahead_entry(
    ahead: Seq<BlockId>,
    tiers: Seq<(BlockId, Tier)>,
    i: int,
) -> Seq<PrefetchRequest> {
    match tier_lookup(tiers, ahead[i]) {
        Some(t) => if t is LocalDisk || t is Nfs {
            seq![
                PrefetchRequest {
                    block_id: ahead[i],
                    current_tier: t,
                    target_tier: Tier::Ram,
                    priority: 50,
                },
            ]
        } else {
            Seq::empty()
        },
        None => Seq::empty(),
    }
}

/// Look-ahead staging requests for blocks `[i, ahead.len())`.
pub open spec fn ahead_promos(
    ahead: Seq<BlockId>,
    tiers: Seq<(BlockId, Tier)>,
    i: int,
) -> Seq<PrefetchRequest>
    decreases ahead.len() - i,
{
    if i >= ahead.len() {
        Seq::empty()
    } else {
        ahead_entry(ahead, tiers, i) + ahead_promos(ahead, tiers, i + 1)
    }
}

/// The full request list at a decode position: hot-window promotions
/// and look-ahead stagings, merged in stable descending priority
/// order.  Hot offsets up to 50 score at least the look-ahead
/// priority and come first; later hot offsets score below it and come
/// last.
pub open spec fn spec_prefetch_requests(
    cfg: PrefetchConfig,
    table: BlockTable,
    pos: int,
    tiers: Seq<(BlockId, Tier)>,
) -> Seq<PrefetchRequest> {
    if table.blocks.len() == 0 {
        Seq::empty()
    } else {
        let hot_start = spec_hot_start(cfg, pos);
        let hot = table.spec_blocks_in_range(hot_start, pos + 1);
        let reach = cfg.hot_window_tokens + cfg.prefetch_ahead * table.block_size;
        let prefetch_start = if pos > 0 {
            if pos >= reach {
                pos - reach
            } else {
                0
            }
        } else {
            0
        };
        let ahead = if hot_start > prefetch_start {
            table.spec_blocks_in_range(prefetch_start, hot_start)
        } else {
            Seq::empty()
        };
        let cut = if hot.len() <= 51 {
            hot.len() as int
        } else {
            51
        };
        hot_promos(hot, tiers, 0, cut) + ahead_promos(ahead, tiers, 0) + hot_promos(
            hot,
            tiers,
            cut,
            hot.len() as int,
        )
    }
}

/// Splitting off the last covered offset appends its entry.
proof fn lemma_hot_promos_snoc(hot: Seq<BlockId>, tiers: Seq<(BlockId, Tier)>, a: int, i: int)
    requires
        a <= i,
    ensures
        hot_promos(hot, tiers, a, i + 1) == hot_promos(hot, tiers, a, i) + hot_entry(
            hot,
            tiers,
            i,
        ),
    decreases i - a,
{
    if a == i {
        assert(hot_promos(hot, tiers, i + 1, i + 1) =~= Seq::empty());
        assert(hot_promos(hot, tiers, a, i + 1) =~= hot_promos(hot, tiers, a, i) + hot_entry(
            hot,
            tiers,
            i,
        ));
    } else {
        lemma_hot_promos_snoc(hot, tiers, a + 1, i);
        assert(hot_promos(hot, tiers, a, i + 1) =~= hot_promos(hot, tiers, a, i) + hot_entry(
            hot,
            tiers,
            i,
        ));
    }
}

/// Likewise for the look-ahead list.
proof fn lemma_ahead_promos_snoc(ahead: Seq<BlockId>, tiers: Seq<(BlockId, Tier)>, a: int, i: int)
    requires
        0 <= a <= i < ahead.len(),
    ensures
        ahead_promos(ahead.subrange(0, i + 1), tiers, a) == ahead_promos(
            ahead.subrange(0, i),
            tiers,
            a,
        ) + ahead_entry(ahead, tiers, i),
    decreases i - a,
{
    let pre1 = ahead.subrange(0, i + 1);
    let pre0 = ahead.subrange(0, i);
    if a == i {
        assert(ahead_promos(pre1, tiers, a) =~= ahead_entry(pre1, tiers, a) + ahead_promos(
            pre1,
            tiers,
            a + 1,
        ));
        assert(ahead_promos(pre1, tiers, a + 1) =~= Seq::empty()) by {
            lemma_ahead_promos_empty(pre1, tiers, a + 1);
        }
        assert(ahead_promos(pre0, tiers, a) =~= Seq::empty()) by {
            lemma_ahead_promos_empty(pre0, tiers, a);
        }
        assert(pre1[a] == ahead[i]);
        assert(ahead_entry(pre1, tiers, a) =~= ahead_entry(ahead, tiers, i));
        assert(ahead_promos(pre1, tiers, a) =~= ahead_promos(pre0, tiers, a) + ahead_entry(
            ahead,
            tiers,
            i,
        ));
    } else {
        lemma_ahead_promos_snoc(ahead, tiers, a + 1, i);
        assert(pre1[a] == ahead[a] && pre0[a] == ahead[a]);
        assert(ahead_entry(pre1, tiers, a) =~= ahead_entry(pre0, tiers, a));
        assert(ahead_promos(pre1, tiers, a) =~= ahead_promos(pre0, tiers, a) + ahead_entry(
            ahead,
            tiers,
            i,
        ));
    }
}

/// A scan starting at or past the end yields nothing.
proof fn lemma_ahead_promos_empty(ahead: Seq<BlockId>, tiers: Seq<(BlockId, Tier)>, a: int)
    requires
        a >= ahead.len(),
    ensures
        ahead_promos(ahead, tiers, a) == Seq::<PrefetchRequest>::empty(),
{
}

/// Every hot-window request in `[a, end)` carries priority
/// `100 - offset` for an offset in that range, so the list is strictly
/// descending in priority.
proof fn lemma_hot_promos_sorted(hot: Seq<BlockId>, tiers: Seq<(BlockId, Tier)>, a: int, end: int)
    requires
        0 <= a,
        end <= u64::MAX,
    ensures
        forall|k: int|
            0 <= k < hot_promos(hot, tiers, a, end).len() ==> (100 - (end - 1) as i128) <= (
            #[trigger] hot_promos(hot, tiers, a, end)[k].priority) <= 100 - a as i128,
        forall|k: int, l: int|
            0 <= k < l < hot_promos(hot, tiers, a, end).len() ==> (#[trigger] hot_promos(
                hot,
                tiers,
                a,
                end,
            )[k].priority) > (#[trigger] hot_promos(hot, tiers, a, end)[l].priority),
    decreases end - a,
{
    if a < end {
        lemma_hot_promos_sorted(hot, tiers, a + 1, end);
        let e = hot_entry(hot, tiers, a);
        let rest = hot_promos(hot, tiers, a + 1, end);
        let whole = hot_promos(hot, tiers, a, end);
        assert(whole == e + rest);
        assert(e.len() == 1 ==> e[0].priority == 100 - a as i128);
        assert forall|k: int|
            0 <= k < whole.len() implies (100 - (end - 1) as i128) <= (
        #[trigger] whole[k].priority) <= 100 - a as i128 by {
            if k < e.len() {
                assert(whole[k] == e[0]);
            } else {
                assert(whole[k] == rest[k - e.len()]);
            }
        }
        assert forall|k: int, l: int|
            0 <= k < l < whole.len() implies (#[trigger] whole[k].priority) > (
        #[trigger] whole[l].priority) by {
            if k < e.len() {
                assert(whole[k] == e[0]);
                assert(whole[l] == rest[l - e.len()]);
            } else {
                assert(whole[k] == rest[k - e.len()]);
                assert(whole[l] == rest[l - e.len()]);
            }
        }
    }
}

/// The decision functions of the prefetcher.
pub struct Prefetcher {
    /// Prefetch strategy settings (read-only).
    pub config: PrefetchConfig,
}

impl Prefetcher {
    /// Create a prefetcher with the given settings.
    pub fn new(config: PrefetchConfig) -> (r: Prefetcher)
        ensures
            r.config == config,
    {
        Prefetcher { config }
    }

    /// Compute which blocks should be prefetched under the sliding
    /// window strategy at the given decode position.
    ///
    /// The tier of each block is taken from `block_tiers`, a snapshot
    /// of block id to tier with one entry per block.  Hot-window
    /// blocks found off GPU become GPU promotions with priority
    /// `100 - offset`; look-ahead blocks found on a disk tier become
    /// RAM promotions with priority 50.  The result is sorted by
    /// priority descending, stable on ties.
    pub fn compute_prefetch_requests(
        &self,
        table: &BlockTable,
        current_token_pos: usize,
        block_tiers: &Vec<(BlockId, Tier)>,
    ) -> (r: Vec<PrefetchRequest>)
        requires
            table.wf(),
            current_token_pos < usize::MAX,
            self.config.hot_window_tokens + self.config.prefetch_ahead * table.block_size
                <= usize::MAX,
            forall|x: int, y: int|
                0 <= x < y < block_tiers.len() ==> (#[trigger] block_tiers[x]).0 != (
                #[trigger] block_tiers[y]).0,
        ensures
            r@ == spec_prefetch_requests(
                self.config,
                *table,
                current_token_pos as int,
                block_tiers@,
            ),
            forall|k: int, l: int| 0 <= k < l < r.len() ==> r[k].priority >= r[l].priority,
    {
        let ghost cfg = self.config;
        let ghost tiers = block_tiers@;

        if table.is_empty() {
            let empty: Vec<PrefetchRequest> = Vec::new();
            return empty;
        }

        let pos = current_token_pos;
        let hot_start = if pos >= self.config.hot_window_tokens {
            pos - self.config.hot_window_tokens
        } else {
            0
        };
        let hot = table.blocks_in_range(hot_start, pos + 1);
        let ghost hot_seq = hot@;

        // Hot-window promotions, split where the priority crosses the
        // look-ahead priority of 50.
        let cut: usize = if hot.len() <= 51 {
            hot.len()
        } else {
            51
        };
        let mut front: Vec<PrefetchRequest> = Vec::new();
        let mut i: usize = 0;
        while i < cut
            invariant
                i <= cut <= hot_seq.len(),
                tiers == block_tiers@,
                hot_seq == hot@,
                forall|x: int, y: int|
                    0 <= x < y < block_tiers.len() ==> (#[trigger] block_tiers[x]).0 != (
                    #[trigger] block_tiers[y]).0,
                front@ == hot_promos(hot_seq, tiers, 0, i as int),
            decreases cut - i,
        {
            proof {
                lemma_hot_promos_snoc(hot_seq, tiers, 0, i as int);
            }
            self.push_hot_entry(&mut front, &hot, i, block_tiers);
            i = i + 1;
        }

        let mut back: Vec<PrefetchRequest> = Vec::new();
        let mut j: usize = cut;
        while j < hot.len()
            invariant
                cut <= j <= hot_seq.len(),
                tiers == block_tiers@,
                hot_seq == hot@,
                forall|x: int, y: int|
                    0 <= x < y < block_tiers.len() ==> (#[trigger] block_tiers[x]).0 != (
                    #[trigger] block_tiers[y]).0,
                back@ == hot_promos(hot_seq, tiers, cut as int, j as int),
            decreases hot_seq.len() - j,
        {
            proof {
                lemma_hot_promos_snoc(hot_seq, tiers, cut as int, j as int);
            }
            self.push_hot_entry(&mut back, &hot, j, block_tiers);
            j = j + 1;
        }

        // Look-ahead stagings: blocks just before the hot window.
        let reach = self.config.hot_window_tokens + self.config.prefetch_ahead * table.block_size;
        let prefetch_start = if pos > 0 {
            if pos >= reach {
                pos - reach
            } else {
                0
            }
        } else {
            0
        };
        let mut middle: Vec<PrefetchRequest> = Vec::new();
        let ghost ahead_seq = if spec_hot_start(cfg, pos as int) > prefetch_start as int {
            table.spec_blocks_in_range(prefetch_start as int, spec_hot_start(cfg, pos as int))
        } else {
            Seq::<BlockId>::empty()
        };
        if hot_start > prefetch_start {
            let ahead = table.blocks_in_range(prefetch_start, hot_start);
            let mut a: usize = 0;
            while a < ahead.len()
                invariant
                    a <= ahead.len(),
                    tiers == block_tiers@,
                    ahead_seq == ahead@,
                    forall|x: int, y: int|
                        0 <= x < y < block_tiers.len() ==> (#[trigger] block_tiers[x]).0 != (
                        #[trigger] block_tiers[y]).0,
                    middle@ == ahead_promos(ahead@.subrange(0, a as int), tiers, 0),
                decreases ahead.len() - a,
            {
                proof {
                    lemma_ahead_promos_snoc(ahead@, tiers, 0, a as int);
                }
                let id = ahead[a];
                match lookup_tier(block_tiers, id) {
                    Some(t) => {
                        if t == Tier::LocalDisk || t == Tier::Nfs {
                            middle.push(
                                PrefetchRequest {
                                    block_id: id,
                                    current_tier: t,
                                    target_tier: Tier::Ram,
                                    priority: 50,
                                },
                            );
                        }
                    },
                    None => {},
                }
                proof {
                    assert(middle@ =~= ahead_promos(ahead@.subrange(0, a + 1), tiers, 0));
                }
                a = a + 1;
            }
            proof {
                assert(ahead@.subrange(0, ahead.len() as int) =~= ahead@);
            }
        }

        // Stable merge: strong hot promotions, then stagings, then the
        // remaining hot promotions.
        let ghost front_seq = front@;
        let ghost middle_seq = middle@;
        let ghost back_seq = back@;
        let mut result = front;
        let mut mid = middle;
        let mut bk = back;
        result.append(&mut mid);
        result.append(&mut bk);
        proof {
            assert(result@ =~= front_seq + middle_seq + back_seq);
            assert(result@ =~= spec_prefetch_requests(cfg, *table, pos as int, tiers));
            lemma_hot_promos_sorted(hot_seq, tiers, 0, cut as int);
            lemma_hot_promos_sorted(hot_seq, tiers, cut as int, hot_seq.len() as int);
            lemma_ahead_promos_all_50(ahead_seq, tiers, 0);
        }
        result
    }

    /// Append the promotion request (if any) of the hot block at
    /// window offset `i`.
    fn push_hot_entry(
        &self,
        out: &mut Vec<PrefetchRequest>,
        hot: &Vec<BlockId>,
        i: usize,
        block_tiers: &Vec<(BlockId, Tier)>,
    )
        requires
            i < hot.len(),
            forall|x: int, y: int|
                0 <= x < y < block_tiers.len() ==> (#[trigger] block_tiers[x]).0 != (
                #[trigger] block_tiers[y]).0,
        ensures
            final(out)@ == old(out)@ + hot_entry(hot@, block_tiers@, i as int),
    {
        let id = hot[i];
        match lookup_tier(block_tiers, id) {
            Some(t) => {
                if t == Tier::Gpu {
                    proof {
                        assert(final(out)@ =~= old(out)@ + hot_entry(
                            hot@,
                            block_tiers@,
                            i as int,
                        ));
                    }
                } else {
                    out.push(
                        PrefetchRequest {
                            block_id: id,
                            current_tier: t,
                            target_tier: Tier::Gpu,
                            priority: 100 - i as i128,
                        },
                    );
                    proof {
                        assert(out@ =~= old(out)@ + hot_entry(hot@, block_tiers@, i as int));
                    }
                }
            },
            None => {
                proof {
                    assert(final(out)@ =~= old(out)@ + hot_entry(hot@, block_tiers@, i as int));
                }
            },
        }
    }

    /// The block ids that must not be evicted: exactly the hot-window
    /// blocks at the given decode position.
    pub fn protected_blocks(&self, table: &BlockTable, current_token_pos: usize) -> (r: Vec<
        BlockId,
    >)
        requires
            table.wf(),
            current_token_pos < usize::MAX,
        ensures
            r@ == table.spec_blocks_in_range(
                spec_hot_start(self.config, current_token_pos as int),
                current_token_pos + 1,
            ),
    {
        let hot_start = if current_token_pos >= self.config.hot_window_tokens {
            current_token_pos - self.config.hot_window_tokens
        } else {
            0
        };
        table.blocks_in_range(hot_start, current_token_pos + 1)
    }
}

/// Every look-ahead staging request carries priority 50.
proof fn lemma_ahead_promos_all_50(ahead: Seq<BlockId>, tiers: Seq<(BlockId, Tier)>, a: int)
    ensures
        forall|k: int|
            0 <= k < ahead_promos(ahead, tiers, a).len() ==> (#[trigger] ahead_promos(
                ahead,
                tiers,
                a,
            )[k].priority) == 50,
    decreases ahead.len() - a,
{
    if a < ahead.len() {
        lemma_ahead_promos_all_50(ahead, tiers, a + 1);
    }
}

/// Look up a block's tier in the snapshot (entries carry distinct
/// ids, so the match is unambiguous).
fn lookup_tier(block_tiers: &Vec<(BlockId, Tier)>, id: BlockId) -> (r: Option<Tier>)
    requires
        forall|x: int, y: int|
            0 <= x < y < block_tiers.len() ==> (#[trigger] block_tiers[x]).0 != (
            #[trigger] block_tiers[y]).0,
    ensures
        r == tier_lookup(block_tiers@, id),
{
    let ghost tiers = block_tiers@;
    let mut j: usize = 0;
    while j < block_tiers.len()
        invariant
            j <= block_tiers.len(),
            tiers == block_tiers@,
            forall|x: int, y: int|
                0 <= x < y < tiers.len() ==> (#[trigger] tiers[x]).0 != (#[trigger] tiers[y]).0,
            forall|x: int| 0 <= x < j ==> (#[trigger] tiers[x]).0 != id,
        decreases block_tiers.len() - j,
    {
        let entry = block_tiers[j];
        if entry.0 == id {
            proof {
                assert(tiers_has(tiers, id)) by {
                    assert(tiers[j as int].0 == id);
                }
                let w = choose|w: int| 0 <= w < tiers.len() && (#[trigger] tiers[w]).0 == id;
                assert(w == j as int);
            }
            return Some(entry.1);
        }
        j = j + 1;
    }
    proof {
        assert(!tiers_has(tiers, id));
    }
    None
}

} // verus!
