//! How many terms, levels and bits a digit count needs.
use crate::series::MAX_TERM;
use crate::splitter::{levels, levels_of};
use vstd::prelude::*;

verus! {

/// The largest digit count that the plan accepts.
pub const MAX_DIGITS: u64 = 0x1000_0000_0000_0000;

/// Decimal digits gained per series term, 14.1816474627254776555, times 10^19.
pub const DIGITS_PER_TERM_SCALED: u128 = 141816474627254776555;

/// The scale of `DIGITS_PER_TERM_SCALED`.
pub const DIGITS_PER_TERM_UNIT: u128 = 10_000_000_000_000_000_000;

/// log2(10), 3.321928094887362347, times 10^18.
pub const LOG2_10_SCALED: u128 = 3321928094887362347;

/// The scale of `LOG2_10_SCALED`.
pub const LOG2_10_UNIT: u128 = 1_000_000_000_000_000_000;

/// Bits of working precision beyond those of the digits asked for.
pub const GUARD_BITS: u64 = 16;

/// The number of series terms for `d` digits: `ceil(d / 14.1816474627254776555)`.
pub open spec fn iters_for(d: nat) -> nat {
    ((d * DIGITS_PER_TERM_UNIT + DIGITS_PER_TERM_SCALED - 1) / (DIGITS_PER_TERM_SCALED as int)) as nat
}

/// The working precision for `d` digits: `floor(d * log2(10))` plus the
/// guard bits.
pub open spec fn bits_for(d: nat) -> nat {
    (d * LOG2_10_SCALED / (LOG2_10_UNIT as int) + GUARD_BITS) as nat
}

/// The number of lanes: `threads` (at least one) but no more than the terms.
pub open spec fn workers_for(threads: nat, iters: nat) -> nat {
    let t = if threads == 0 {
        1
    } else {
        threads
    };
    if t > iters {
        iters
    } else {
        t
    }
}

/// What a run computes with, fixed before any lane starts.
pub struct PrecisionPlan {
    /// The number of series terms.
    pub iters_needed: u64,
    /// The stack slots that splitting all the terms in one lane uses.
    pub depth: u64,
    /// The bits of the binary fixed-point result.
    pub target_bit_precision: u64,
    /// The number of lanes.
    pub workers: u64,
}

impl PrecisionPlan {
    /// The plan for `digits` decimal places over at most `threads` lanes.
    pub fn new(digits: u64, threads: u64) -> (r: PrecisionPlan)
        requires
            digits <= MAX_DIGITS,
        ensures
            r.iters_needed == iters_for(digits as nat),
            r.iters_needed <= MAX_TERM,
            r.depth == levels(r.iters_needed as nat),
            r.target_bit_precision == bits_for(digits as nat),
            r.workers == workers_for(threads as nat, r.iters_needed as nat),
    {
        let d = digits as u128;
        let iters = ((d * DIGITS_PER_TERM_UNIT + DIGITS_PER_TERM_SCALED - 1) / DIGITS_PER_TERM_SCALED) as u64;
        let bits = (d * LOG2_10_SCALED / LOG2_10_UNIT) as u64 + GUARD_BITS;
        let t = if threads == 0 {
            1
        } else {
            threads
        };
        let workers = if t > iters {
            iters
        } else {
            t
        };
        PrecisionPlan { iters_needed: iters, depth: levels_of(iters), target_bit_precision: bits, workers }
    }
}

} // verus!
