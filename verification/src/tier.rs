//! Storage tiers and block data formats.
//!
//! Tiers are totally ordered from hottest to coldest; `demote` and
//! `promote` step along that order.  The tier of a block is purely
//! logical: physical placement is inferred from the block's payload.

use vstd::prelude::*;

verus! {

/// Identifies which storage tier a block currently resides in.
#[derive(Debug, Clone, Copy, PartialEq, Eq, Structural)]
pub enum Tier {
    /// Tier 0: GPU VRAM (hot).
    Gpu,
    /// Tier 1: Host RAM (warm).
    Ram,
    /// Tier 2: Local SSD (cool).
    LocalDisk,
    /// Tier 3: NFS / remote HDD (cold).
    Nfs,
}

impl Tier {
    /// The numeric tier level (lower = faster), as a spec-level value.
    pub open spec fn spec_level(self) -> int {
        match self {
            Tier::Gpu => 0,
            Tier::Ram => 1,
            Tier::LocalDisk => 2,
            Tier::Nfs => 3,
        }
    }

    /// Returns the numeric tier level (lower = faster).
    pub fn level(&self) -> (r: u8)
        ensures
            r as int == self.spec_level(),
    {
        match self {
            Tier::Gpu => 0,
            Tier::Ram => 1,
            Tier::LocalDisk => 2,
            Tier::Nfs => 3,
        }
    }

    /// The next slower tier, or `None` for the coldest.
    pub open spec fn spec_demote(self) -> Option<Tier> {
        match self {
            Tier::Gpu => Some(Tier::Ram),
            Tier::Ram => Some(Tier::LocalDisk),
            Tier::LocalDisk => Some(Tier::Nfs),
            Tier::Nfs => None,
        }
    }

    /// The next faster tier, or `None` for the hottest.
    pub open spec fn spec_promote(self) -> Option<Tier> {
        match self {
            Tier::Gpu => None,
            Tier::Ram => Some(Tier::Gpu),
            Tier::LocalDisk => Some(Tier::Ram),
            Tier::Nfs => Some(Tier::LocalDisk),
        }
    }

    /// Returns the next slower tier for eviction, or `None` if already coldest.
    pub fn demote(&self) -> (r: Option<Tier>)
        ensures
            r == self.spec_demote(),
            *self is Nfs <==> r is None,
            r matches Some(t) ==> t.spec_level() == self.spec_level() + 1,
    {
        match self {
            Tier::Gpu => Some(Tier::Ram),
            Tier::Ram => Some(Tier::LocalDisk),
            Tier::LocalDisk => Some(Tier::Nfs),
            Tier::Nfs => None,
        }
    }

    /// Returns the next faster tier for promotion, or `None` if already hottest.
    pub fn promote(&self) -> (r: Option<Tier>)
        ensures
            r == self.spec_promote(),
            *self is Gpu <==> r is None,
            r matches Some(t) ==> t.spec_level() == self.spec_level() - 1,
    {
        match self {
            Tier::Gpu => None,
            Tier::Ram => Some(Tier::Gpu),
            Tier::LocalDisk => Some(Tier::Ram),
            Tier::Nfs => Some(Tier::LocalDisk),
        }
    }

    /// Short human-readable tier name, for logs and reports.
    pub fn label(&self) -> (r: &'static str)
    {
        match self {
            Tier::Gpu => "GPU",
            Tier::Ram => "RAM",
            Tier::LocalDisk => "SSD",
            Tier::Nfs => "NFS",
        }
    }
}

/// The quantization / storage format of a block's data.
#[derive(Debug, Clone, Copy, PartialEq, Eq, Structural)]
pub enum CacheFormat {
    /// Full precision FP16 (native GPU format).
    Fp16,
    /// 8-bit quantized.
    Q8,
    /// 4-bit quantized.
    Q4,
    /// 4-bit quantized + stream-compressed (cold on-disk format).
    Q4Zstd,
}

} // verus!
