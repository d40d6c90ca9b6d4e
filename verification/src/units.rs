//! Fixed-point units used throughout the cache core.
//!
//! Fractions — watermarks, eviction weights, attention scores — are held
//! as integers in parts per million.  `SCALE` is the fixed-point one:
//! a stored value `v` stands for the real number `v / SCALE`.

use vstd::prelude::*;

verus! {

/// Fixed-point scale: one million parts stand for 1.0.
pub const SCALE: u64 = 1_000_000;

/// Largest admissible attention score, in `SCALE` units (one million in
/// real terms).  Keeping scores below this bound makes the exponential
/// moving average overflow-free in `u64` arithmetic.
pub const SCORE_MAX: u64 = 1_000_000_000_000;

/// Inverse-attention value assigned to a zero-attention block, in
/// `SCALE` units.  It exceeds every finite inverse (the largest finite
/// inverse is `SCALE * SCALE`, reached at the smallest nonzero score),
/// so a zero-attention block saturates the attention component.
pub const SATURATED_INVERSE: u64 = 10_000_000_000_000_000;

/// The largest inverse a nonzero attention score can produce:
/// `SCALE * SCALE / 1`.
pub const MAX_FINITE_INVERSE: u64 = 1_000_000_000_000;

} // verus!
