//! Single random draw: shuffle the candidate indices into a uniformly random
//! order, then accumulate in that order until the threshold is cleared.  The
//! per-call permutation is the point of the strategy: repeated calls explore
//! different subsets, avoiding a fingerprintable deterministic order.

use vstd::prelude::*;
use crate::model::is_candidate_order;
use crate::model::lemma_candidate_order_props;
use crate::model::lemma_valid_indices_take;
use crate::model::valid_indices;
use crate::ordering::make_identity_order;
use crate::random_source::shuffle_order;
use crate::sweep::candidates_cannot_cover;
use crate::sweep::finish_selection;
use crate::sweep::lemma_exhausted_order_bounds_total;
use crate::sweep::prefix_satisfies;
use crate::sweep::run_sweep;
use crate::sweep::sweep_selection_ok;
use crate::types::CoinSelectionOpt;
use crate::types::OutputGroup;
use crate::types::SelectionError;
use crate::types::SelectionOutput;

verus! {

/// No prefix of the given candidate order clears the threshold that single
/// random draw uses (the fee estimate includes the base weight).
pub open spec fn srd_order_exhausted(
    inputs: Seq<OutputGroup>,
    opt: CoinSelectionOpt,
    ord: Seq<usize>,
) -> bool {
    forall|p: int|
        0 <= p < ord.len() ==> !(#[trigger] prefix_satisfies(
            inputs,
            ord,
            opt,
            opt.base_weight as int,
            p,
        ))
}

/// What a successful single-random-draw selection promises: the result is
/// the shortest satisfying prefix of some candidate order (the drawn
/// permutation).
pub open spec fn srd_selection_ok(
    inputs: Seq<OutputGroup>,
    opt: CoinSelectionOpt,
    out: SelectionOutput,
) -> bool {
    exists|ord: Seq<usize>|
        #[trigger] is_candidate_order(ord, inputs.len() as int) && sweep_selection_ok(
            inputs,
            opt,
            opt.base_weight as int,
            ord,
            out,
        )
}

/// Selects candidates in a fresh uniformly random order.  On success the
/// result is the shortest satisfying prefix of the drawn order; on failure
/// not even the whole candidate set, walked in the drawn order, clears the
/// threshold.  Which order is drawn is not promised: two calls on the same
/// inputs may legitimately pick different subsets.
pub fn select_coin_srd(
    inputs: &Vec<OutputGroup>,
    options: CoinSelectionOpt,
    rng: &mut rand::rngs::ThreadRng,
) -> (r: Result<SelectionOutput, SelectionError>)
    ensures
        match r {
            Ok(out) => {
                &&& valid_indices(inputs@, out.selected_inputs@)
                &&& srd_selection_ok(inputs@, options, out)
            },
            Err(e) => {
                &&& e == SelectionError::InsufficientFunds
                &&& candidates_cannot_cover(inputs@, options, options.base_weight as int)
                &&& exists|ord: Seq<usize>|
                    #[trigger] is_candidate_order(ord, inputs@.len() as int)
                        && srd_order_exhausted(inputs@, options, ord)
            },
        },
{
    let n = inputs.len();
    let mut order = make_identity_order(n);
    shuffle_order(&mut order, rng);
    proof {
        assert(is_candidate_order(order@, n as int));
        lemma_candidate_order_props(order@, n as int);
    }
    match run_sweep(inputs, &order, &options, options.base_weight) {
        Some(t) => {
            let (selected, acc_v, acc_w) = t;
            proof {
                lemma_valid_indices_take(inputs@, order@, selected@.len() as int);
            }
            let out = finish_selection(inputs, &options, selected, acc_v, acc_w);
            proof {
                assert(sweep_selection_ok(
                    inputs@,
                    options,
                    options.base_weight as int,
                    order@,
                    out,
                ));
            }
            Ok(out)
        },
        None => {
            proof {
                assert(srd_order_exhausted(inputs@, options, order@));
                if inputs@.len() > 0 {
                    lemma_exhausted_order_bounds_total(
                        inputs@,
                        order@,
                        options,
                        options.base_weight as int,
                    );
                }
            }
            Err(SelectionError::InsufficientFunds)
        },
    }
}

} // verus!
