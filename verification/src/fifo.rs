//! First-in-first-out selection: walk the candidates from oldest to newest
//! (by `creation_sequence`, unaged groups last, original index as the
//! tie-break) and stop at the first prefix that clears the threshold.

use vstd::prelude::*;
use vstd::arithmetic::mul::lemma_mul_inequality;
use crate::model::is_candidate_order;
use crate::model::lemma_candidate_order_props;
use crate::model::valid_indices;
use crate::model::lemma_valid_indices_take;
use crate::ordering::key_sorted;
use crate::ordering::lemma_key_parts;
use crate::ordering::lemma_key_sorted_orders_equal;
use crate::ordering::make_identity_order;
use crate::ordering::sort_by_key;
use crate::sweep::candidates_cannot_cover;
use crate::sweep::finish_selection;
use crate::sweep::lemma_exhausted_order_bounds_total;
use crate::sweep::prefix_satisfies;
use crate::sweep::run_sweep;
use crate::sweep::sweep_selection_ok;
use crate::types::CoinSelectionOpt;
use crate::types::OutputGroup;
use crate::types::SelectionError;
use crate::types::SelectionOutput;

verus! {

/// The FIFO sort key of candidate `i`: aged groups come first, ordered by
/// ascending creation sequence; groups without a sequence come after every
/// aged group; the original index breaks every tie, so the key is injective
/// and the order deterministic.
pub open spec fn fifo_key(inputs: Seq<OutputGroup>, i: usize) -> int {
    match inputs[i as int].creation_sequence {
        Option::Some(s) => s * 0x1_0000_0000_0000_0000 + i,
        Option::None => 0x1_0000_0000_0000_0000_0000_0000 + i,
    }
}

/// The age-sorted candidate order that FIFO selection walks.
pub open spec fn is_fifo_order(inputs: Seq<OutputGroup>, ord: Seq<usize>) -> bool {
    &&& is_candidate_order(ord, inputs.len() as int)
    &&& key_sorted(ord, |x: usize| fifo_key(inputs, x))
}

/// No prefix of the age-sorted order clears the threshold: the FIFO sweep is
/// bound to fail with `InsufficientFunds`.
pub open spec fn fifo_insufficient(inputs: Seq<OutputGroup>, opt: CoinSelectionOpt) -> bool {
    forall|ord: Seq<usize>, p: int|
        is_fifo_order(inputs, ord) && 0 <= p < ord.len() ==> !(#[trigger] prefix_satisfies(
            inputs,
            ord,
            opt,
            0,
            p,
        ))
}

/// What a successful FIFO selection promises: the result is the shortest
/// satisfying prefix of the (unique) age-sorted candidate order.
pub open spec fn fifo_selection_ok(
    inputs: Seq<OutputGroup>,
    opt: CoinSelectionOpt,
    out: SelectionOutput,
) -> bool {
    exists|ord: Seq<usize>|
        #[trigger] is_fifo_order(inputs, ord) && sweep_selection_ok(inputs, opt, 0, ord, out)
}

/// Distinct candidates have distinct FIFO keys.
pub proof fn lemma_fifo_key_injective(inputs: Seq<OutputGroup>)
    ensures
        forall|a: usize, b: usize|
            #[trigger] fifo_key(inputs, a) == #[trigger] fifo_key(inputs, b) ==> a == b,
{
    assert forall|a: usize, b: usize|
        #[trigger] fifo_key(inputs, a) == #[trigger] fifo_key(inputs, b) implies a == b by {
        let r64: int = 0x1_0000_0000_0000_0000;
        match (inputs[a as int].creation_sequence, inputs[b as int].creation_sequence) {
            (Option::Some(s1), Option::Some(s2)) => {
                lemma_key_parts(s1 as int, a as int, s2 as int, b as int, r64);
            },
            (Option::Some(s1), Option::None) => {
                lemma_mul_inequality(s1 as int, u32::MAX as int, r64);
            },
            (Option::None, Option::Some(s2)) => {
                lemma_mul_inequality(s2 as int, u32::MAX as int, r64);
            },
            (Option::None, Option::None) => {},
        }
    }
}

/// Selects candidates oldest-first.  On success the result is the shortest
/// prefix of the age-sorted order whose accumulated value covers the target,
/// the minimum drain value and the fee floor; if even the whole candidate
/// set cannot, the attempt fails with `InsufficientFunds`.
pub fn select_coin_fifo(inputs: &Vec<OutputGroup>, options: CoinSelectionOpt) -> (r: Result<
    SelectionOutput,
    SelectionError,
>)
    ensures
        match r {
            Ok(out) => {
                &&& valid_indices(inputs@, out.selected_inputs@)
                &&& fifo_selection_ok(inputs@, options, out)
            },
            Err(e) => {
                &&& e == SelectionError::InsufficientFunds
                &&& fifo_insufficient(inputs@, options)
                &&& candidates_cannot_cover(inputs@, options, 0)
            },
        },
{
    let n = inputs.len();
    let mut keys: Vec<u128> = Vec::new();
    let mut i: usize = 0;
    while i < n
        invariant
            i <= n,
            n == inputs@.len(),
            keys@.len() == i,
            forall|j: int| 0 <= j < i ==> (#[trigger] keys@[j]) as int == fifo_key(inputs@, j as usize),
        decreases n - i,
    {
        let g = inputs[i];
        let k: u128 = match g.creation_sequence {
            Option::Some(s) => {
                proof {
                    lemma_mul_inequality(
                        g.creation_sequence.unwrap() as int,
                        u32::MAX as int,
                        0x1_0000_0000_0000_0000,
                    );
                }
                (s as u128) * 0x1_0000_0000_0000_0000u128 + i as u128
            },
            Option::None => 0x1_0000_0000_0000_0000_0000_0000u128 + i as u128,
        };
        keys.push(k);
        i += 1;
    }
    let mut order = make_identity_order(n);
    sort_by_key(&keys, &mut order);
    proof {
        assert(is_candidate_order(order@, n as int));
        lemma_candidate_order_props(order@, n as int);
        assert forall|a: int, b: int| 0 <= a < b < order@.len() implies fifo_key(
            inputs@,
            order@[a],
        ) <= fifo_key(inputs@, order@[b]) by {
            assert(keys@[order@[a] as int] <= keys@[order@[b] as int]);
        }
        assert(is_fifo_order(inputs@, order@));
    }
    match run_sweep(inputs, &order, &options, 0) {
        Some(t) => {
            let (selected, acc_v, acc_w) = t;
            proof {
                lemma_valid_indices_take(inputs@, order@, selected@.len() as int);
            }
            let out = finish_selection(inputs, &options, selected, acc_v, acc_w);
            proof {
                assert(sweep_selection_ok(inputs@, options, 0, order@, out));
            }
            Ok(out)
        },
        None => {
            proof {
                if inputs@.len() > 0 {
                    lemma_exhausted_order_bounds_total(inputs@, order@, options, 0);
                }
                assert forall|ord2: Seq<usize>, p: int|
                    is_fifo_order(inputs@, ord2) && 0 <= p < ord2.len() implies !(
                #[trigger] prefix_satisfies(inputs@, ord2, options, 0, p)) by {
                    lemma_fifo_key_injective(inputs@);
                    lemma_key_sorted_orders_equal(
                        n as int,
                        |x: usize| fifo_key(inputs@, x),
                        ord2,
                        order@,
                    );
                }
            }
            Err(SelectionError::InsufficientFunds)
        },
    }
}

} // verus!
