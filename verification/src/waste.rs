//! The waste evaluator: scores a finished selection so that results from
//! different strategies can be ranked.  Waste is the sum of a long-term cost
//! term (the fee-rate spread over the accumulated weight, when a long-term
//! rate is known) and an excess term (the full surplus when no drain output
//! is created, or the fixed drain cost when one is).

use vstd::prelude::*;
use crate::cost::fee_of;
use crate::cost::fee_wide;
use crate::types::CoinSelectionOpt;
use crate::types::ExcessStrategy;
use crate::types::FeeRate;
use crate::types::OutputGroup;

verus! {

/// The long-term cost term: the accumulated weight charged at the spread
/// between the target rate and the long-term rate, zero when no long-term
/// rate is supplied or the spread is not positive.
pub open spec fn longterm_cost(opt: CoinSelectionOpt, acc_weight: int) -> int {
    match opt.long_term_feerate {
        Option::Some(lt) => if opt.target_feerate.per_kwu > lt.per_kwu {
            fee_of(acc_weight, opt.target_feerate.per_kwu - lt.per_kwu)
        } else {
            0
        },
        Option::None => 0,
    }
}

/// The excess term: the fixed drain cost under `ToDrain`, otherwise the full
/// surplus of accumulated value over target plus fee (zero if there is no
/// surplus).
pub open spec fn excess_cost(opt: CoinSelectionOpt, acc_value: int, est_fee: int) -> int {
    if opt.excess_strategy == ExcessStrategy::ToDrain {
        opt.drain_cost as int
    } else if acc_value >= opt.target_value + est_fee {
        acc_value - opt.target_value - est_fee
    } else {
        0
    }
}

/// The waste of a selection: long-term cost plus excess cost, reported in a
/// `u64` and therefore capped at `u64::MAX`.
pub open spec fn waste_of(opt: CoinSelectionOpt, acc_value: int, acc_weight: int, est_fee: int) -> int {
    if longterm_cost(opt, acc_weight) + excess_cost(opt, acc_value, est_fee) > u64::MAX as int {
        u64::MAX as int
    } else {
        longterm_cost(opt, acc_weight) + excess_cost(opt, acc_value, est_fee)
    }
}

/// Computes the waste metric of a finished selection from the candidate list,
/// the selected indices, the options, the accumulated value and weight of the
/// selection, and the fee it actually pays.
pub fn calculate_waste(
    inputs: &Vec<OutputGroup>,
    selected_inputs: &Vec<usize>,
    options: &CoinSelectionOpt,
    accumulated_value: u128,
    accumulated_weight: u128,
    estimated_fee: u64,
) -> (r: u64)
    ensures
        r as int == waste_of(
            *options,
            accumulated_value as int,
            accumulated_weight as int,
            estimated_fee as int,
        ),
{
    let mut longterm: u64 = 0;
    match options.long_term_feerate {
        Option::Some(lt) => {
            if options.target_feerate.per_kwu > lt.per_kwu {
                longterm = fee_wide(
                    accumulated_weight,
                    FeeRate { per_kwu: options.target_feerate.per_kwu - lt.per_kwu },
                );
            }
        },
        Option::None => {},
    }
    let excess: u128;
    if options.excess_strategy != ExcessStrategy::ToDrain {
        let need: u128 = options.target_value as u128 + estimated_fee as u128;
        excess = if accumulated_value >= need {
            accumulated_value - need
        } else {
            0
        };
    } else {
        excess = options.drain_cost as u128;
    }
    if excess >= u64::MAX as u128 {
        return u64::MAX;
    }
    let total: u128 = longterm as u128 + excess;
    if total > u64::MAX as u128 {
        u64::MAX
    } else {
        total as u64
    }
}

} // verus!
