//! The selection aggregator: run every implemented selector against the same
//! candidates and options, and keep the success with the lowest waste.

use vstd::prelude::*;
use crate::bnb::bnb_selection_ok;
use crate::bnb::select_coin_bnb;
use crate::fifo::fifo_insufficient;
use crate::fifo::fifo_selection_ok;
use crate::fifo::select_coin_fifo;
use crate::lowest_larger::ll_insufficient;
use crate::lowest_larger::ll_selection_ok;
use crate::lowest_larger::select_coin_lowestlarger;
use crate::model::valid_indices;
use crate::srd::select_coin_srd;
use crate::srd::srd_selection_ok;
use crate::sweep::candidates_cannot_cover;
use crate::types::CoinSelectionOpt;
use crate::types::OutputGroup;
use crate::types::SelectionError;
use crate::types::SelectionOutput;

verus! {

/// A selection the aggregator may return: a result that honours the contract
/// of at least one of the four strategies.
pub open spec fn acceptable_selection(
    inputs: Seq<OutputGroup>,
    opt: CoinSelectionOpt,
    out: SelectionOutput,
) -> bool {
    ||| fifo_selection_ok(inputs, opt, out)
    ||| ll_selection_ok(inputs, opt, out)
    ||| srd_selection_ok(inputs, opt, out)
    ||| bnb_selection_ok(inputs, opt, out)
}

/// Runs FIFO, lowest-larger, single random draw and branch-and-bound against
/// the same candidates and options, and returns the success with the lowest
/// waste (the earlier strategy, in that order, winning ties).  When every
/// strategy fails the heuristics have all reported `InsufficientFunds`, and
/// that error is propagated; the deterministic heuristics' failure
/// predicates then hold, so no age-ordered or lowest-larger sweep could have
/// succeeded.
pub fn select_coin(
    inputs: &Vec<OutputGroup>,
    options: CoinSelectionOpt,
    rng: &mut rand::rngs::ThreadRng,
) -> (r: Result<SelectionOutput, SelectionError>)
    ensures
        match r {
            Ok(out) => {
                &&& valid_indices(inputs@, out.selected_inputs@)
                &&& acceptable_selection(inputs@, options, out)
            },
            Err(e) => {
                &&& e == SelectionError::InsufficientFunds
                &&& fifo_insufficient(inputs@, options)
                &&& ll_insufficient(inputs@, options)
                &&& candidates_cannot_cover(inputs@, options, 0)
            },
        },
{
    let r_fifo = select_coin_fifo(inputs, options);
    let r_ll = select_coin_lowestlarger(inputs, options);
    let r_srd = select_coin_srd(inputs, options, rng);
    let r_bnb = select_coin_bnb(inputs, options, rng);
    let mut best: Option<SelectionOutput> = None;
    match r_fifo {
        Ok(out) => {
            best = Some(out);
        },
        Err(_) => {},
    }
    match r_ll {
        Ok(out) => {
            best = match best {
                Some(b) => if out.waste.0 < b.waste.0 {
                    Some(out)
                } else {
                    Some(b)
                },
                None => Some(out),
            };
        },
        Err(_) => {},
    }
    match r_srd {
        Ok(out) => {
            best = match best {
                Some(b) => if out.waste.0 < b.waste.0 {
                    Some(out)
                } else {
                    Some(b)
                },
                None => Some(out),
            };
        },
        Err(_) => {},
    }
    match r_bnb {
        Ok(out) => {
            best = match best {
                Some(b) => if out.waste.0 < b.waste.0 {
                    Some(out)
                } else {
                    Some(b)
                },
                None => Some(out),
            };
        },
        Err(_) => {},
    }
    match best {
        Some(out) => Ok(out),
        None => Err(SelectionError::InsufficientFunds),
    }
}

} // verus!
