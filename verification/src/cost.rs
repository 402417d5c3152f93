//! The cost model: fee for a weight at a rate, and the effective value of a
//! candidate group.  Pure numeric functions with no failure modes.

use vstd::prelude::*;
use vstd::arithmetic::div_mod::lemma_div_is_ordered;
use vstd::arithmetic::div_mod::lemma_fundamental_div_mod;
use vstd::arithmetic::div_mod::lemma_fundamental_div_mod_converse;
use vstd::arithmetic::mul::lemma_mul_inequality;
use crate::types::FeeRate;
use crate::types::OutputGroup;

verus! {

/// The exact fee for `weight` at `rate` (base units per 1000 weight units),
/// rounded up: `ceil(weight * rate / 1000)`.
pub open spec fn fee_exact(weight: int, rate: int) -> int {
    (weight * rate + 999) / 1000
}

/// The fee as the engine reports it in a `u64`: the exact ceiling fee, capped
/// at `u64::MAX` when a pathological weight/rate product would not fit.
pub open spec fn fee_of(weight: int, rate: int) -> int {
    if fee_exact(weight, rate) > u64::MAX as int {
        u64::MAX as int
    } else {
        fee_exact(weight, rate)
    }
}

/// A candidate's effective value: its value minus the fee its weight incurs,
/// floored at zero.
pub open spec fn effective_value_of(g: OutputGroup, rate: int) -> int {
    if g.value >= fee_of(g.weight as int, rate) {
        g.value - fee_of(g.weight as int, rate)
    } else {
        0
    }
}

/// Fee computation on an accumulated (possibly very wide) weight.  Total: for
/// any input it returns exactly `fee_of`, saturating at `u64::MAX`.
pub(crate) fn fee_wide(weight: u128, rate: FeeRate) -> (r: u64)
    ensures
        r as int == fee_of(weight as int, rate.per_kwu as int),
{
    let w = weight;
    let rr: u128 = rate.per_kwu as u128;
    if rr == 0 {
        return 0;
    }
    let q: u128 = u128::MAX / rr;
    if w > q {
        proof {
            // w * rr exceeds u128::MAX, which itself exceeds 1000 * u64::MAX
            // + 999, so the exact ceiling fee exceeds u64::MAX.
            lemma_fundamental_div_mod(u128::MAX as int, rr as int);
            lemma_mul_inequality(q as int + 1, w as int, rr as int);
            assert((q as int + 1) * rr as int == q as int * rr as int + rr as int) by (nonlinear_arith);
            assert(w as int * rr as int > u128::MAX as int);
            lemma_div_is_ordered(
                1000 * (u64::MAX as int) + 1000,
                w as int * rr as int + 999,
                1000,
            );
            lemma_fundamental_div_mod_converse(
                1000 * (u64::MAX as int) + 1000,
                1000,
                u64::MAX as int + 1,
                0,
            );
        }
        return u64::MAX;
    }
    proof {
        lemma_fundamental_div_mod(u128::MAX as int, rr as int);
        lemma_mul_inequality(w as int, q as int, rr as int);
    }
    let p: u128 = w * rr;
    if p > 1000 * 0xFFFF_FFFF_FFFF_FFFFu128 {
        proof {
            lemma_div_is_ordered(
                1000 * (u64::MAX as int) + 1000,
                p as int + 999,
                1000,
            );
            lemma_fundamental_div_mod_converse(
                1000 * (u64::MAX as int) + 1000,
                1000,
                u64::MAX as int + 1,
                0,
            );
        }
        return u64::MAX;
    }
    let f: u128 = (p + 999) / 1000;
    proof {
        lemma_div_is_ordered(
            p as int + 999,
            1000 * (u64::MAX as int) + 999,
            1000,
        );
        lemma_fundamental_div_mod_converse(
            1000 * (u64::MAX as int) + 999,
            1000,
            u64::MAX as int,
            999,
        );
    }
    f as u64
}

/// The fee that `weight` incurs at `rate`: the product rounded up to whole
/// base units, saturating at `u64::MAX` on pathological inputs.
pub fn calculate_fee(weight: u64, rate: FeeRate) -> (r: u64)
    ensures
        r as int == fee_of(weight as int, rate.per_kwu as int),
{
    fee_wide(weight as u128, rate)
}

/// The effective value of a candidate group at the given fee rate: its value
/// minus the fee attributable to its weight, never below zero.
pub fn effective_value(output: &OutputGroup, feerate: FeeRate) -> (r: u64)
    ensures
        r as int == effective_value_of(*output, feerate.per_kwu as int),
{
    let f = calculate_fee(output.weight as u64, feerate);
    if output.value >= f {
        output.value - f
    } else {
        0
    }
}

} // verus!
