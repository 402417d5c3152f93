use std::collections::HashSet;

use coinselect::create_output_group;
use coinselect::select_coin_fifo;
use coinselect::select_coin_lowestlarger;
use coinselect::select_coin_srd;
use coinselect::setup_basic_output_groups;
use coinselect::CoinSelectionOpt;
use coinselect::ExcessStrategy;
use coinselect::FeeRate;
use coinselect::OutputGroup;
use coinselect::SelectionError;

fn options(target_value: u64, target_feerate: FeeRate, min_drain_value: u64) -> CoinSelectionOpt {
    CoinSelectionOpt {
        target_value,
        target_feerate,
        long_term_feerate: None,
        min_absolute_fee: 0,
        base_weight: 10,
        drain_weight: 50,
        drain_cost: 10,
        cost_per_input: 20,
        cost_per_output: 10,
        min_drain_value,
        excess_strategy: ExcessStrategy::ToDrain,
    }
}

fn aged(value: u64, weight: u32, sequence: u32) -> OutputGroup {
    create_output_group(value, weight, 1, false, Some(sequence))
}

#[test]
fn fifo_selects_oldest_first() {
    // Creation sequences 1, 5000, 1001: the group with sequence 1 is oldest
    // and must be taken first; a small target is covered by it alone.
    let inputs = vec![aged(1000, 100, 1), aged(2000, 200, 5000), aged(3000, 300, 1001)];
    let opt = options(500, FeeRate { per_kwu: 0 }, 0);
    let out = select_coin_fifo(&inputs, opt).expect("oldest group alone covers the target");
    assert_eq!(out.selected_inputs, vec![0]);
}

#[test]
fn fifo_walks_in_ascending_sequence_order() {
    let inputs = vec![aged(1000, 100, 1), aged(2000, 200, 5000), aged(3000, 300, 1001)];
    let opt = options(2500, FeeRate { per_kwu: 0 }, 0);
    let out = select_coin_fifo(&inputs, opt).expect("two oldest groups cover the target");
    // Ascending sequence order is 1, 1001, 5000: indices 0 then 2.
    assert_eq!(out.selected_inputs, vec![0, 2]);
}

#[test]
fn fifo_sorts_unaged_groups_last() {
    let inputs = vec![
        create_output_group(5000, 100, 1, false, None),
        aged(100, 10, 2),
    ];
    let opt = options(50, FeeRate { per_kwu: 0 }, 0);
    let out = select_coin_fifo(&inputs, opt).expect("the aged group covers the target");
    assert_eq!(out.selected_inputs, vec![1]);
}

#[test]
fn fifo_respects_min_absolute_fee() {
    let inputs = vec![create_output_group(1000, 100, 1, false, None)];
    let mut opt = options(900, FeeRate { per_kwu: 0 }, 0);
    opt.min_absolute_fee = 150;
    // 1000 < 900 + max(0, 150): the floor pushes the threshold out of reach.
    assert!(matches!(
        select_coin_fifo(&inputs, opt),
        Err(SelectionError::InsufficientFunds)
    ));
    opt.min_absolute_fee = 50;
    let out = select_coin_fifo(&inputs, opt).expect("1000 covers 900 + 50");
    assert_eq!(out.selected_inputs, vec![0]);
}

#[test]
fn heuristics_fail_on_insufficient_funds() {
    // Three candidates totaling 6000 cannot cover a target of 7000: every
    // heuristic reports InsufficientFunds.
    let inputs = setup_basic_output_groups();
    let opt = options(7000, FeeRate { per_kwu: 330 }, 500);
    let mut rng = rand::thread_rng();
    assert!(matches!(
        select_coin_fifo(&inputs, opt),
        Err(SelectionError::InsufficientFunds)
    ));
    assert!(matches!(
        select_coin_lowestlarger(&inputs, opt),
        Err(SelectionError::InsufficientFunds)
    ));
    assert!(matches!(
        select_coin_srd(&inputs, opt, &mut rng),
        Err(SelectionError::InsufficientFunds)
    ));
}

#[test]
fn srd_selects_a_valid_covering_subset() {
    let inputs = setup_basic_output_groups();
    let opt = options(1000, FeeRate { per_kwu: 330 }, 500);
    let mut rng = rand::thread_rng();
    for _ in 0..20 {
        let out = select_coin_srd(&inputs, opt, &mut rng).expect("6000 total covers the target");
        let mut seen = HashSet::new();
        let mut sum: u64 = 0;
        for &i in &out.selected_inputs {
            assert!(i < inputs.len());
            assert!(seen.insert(i), "duplicate index {:?}", i);
            sum += inputs[i].value;
        }
        assert!(sum >= 1500, "accumulated {:?} is below target + drain", sum);
    }
}

#[test]
fn srd_draws_varying_orders() {
    // Ten identical candidates and a target one alone covers: the selected
    // index is the first of the shuffled order, so over many calls more than
    // one distinct index must show up.
    let inputs: Vec<OutputGroup> = (0..10)
        .map(|_| create_output_group(1000, 100, 1, false, None))
        .collect();
    let opt = options(100, FeeRate { per_kwu: 0 }, 0);
    let mut rng = rand::thread_rng();
    let mut first_indices = HashSet::new();
    for _ in 0..40 {
        let out = select_coin_srd(&inputs, opt, &mut rng).expect("any candidate covers 100");
        assert_eq!(out.selected_inputs.len(), 1);
        first_indices.insert(out.selected_inputs[0]);
    }
    assert!(
        first_indices.len() > 1,
        "40 draws always started with the same candidate"
    );
}

#[test]
fn lowestlarger_takes_smallest_larger_candidate() {
    let inputs = vec![
        create_output_group(1000, 10, 1, false, None),
        create_output_group(3000, 10, 1, false, None),
        create_output_group(10000, 10, 1, false, None),
    ];
    let opt = options(500, FeeRate { per_kwu: 0 }, 0);
    let out = select_coin_lowestlarger(&inputs, opt).expect("plenty of value");
    assert_eq!(out.selected_inputs, vec![0]);
}

#[test]
fn lowestlarger_prefers_largest_below_target() {
    let inputs = vec![
        create_output_group(1000, 10, 1, false, None),
        create_output_group(2000, 10, 1, false, None),
        create_output_group(10000, 10, 1, false, None),
    ];
    let opt = options(2500, FeeRate { per_kwu: 0 }, 0);
    let out = select_coin_lowestlarger(&inputs, opt).expect("small candidates suffice");
    // Phase one walks the at-or-below group largest first: 2000 then 1000.
    assert_eq!(out.selected_inputs, vec![1, 0]);
}

#[test]
fn lowestlarger_falls_back_to_larger_group() {
    let inputs = vec![
        create_output_group(1000, 10, 1, false, None),
        create_output_group(3000, 10, 1, false, None),
        create_output_group(10000, 10, 1, false, None),
    ];
    let opt = options(2500, FeeRate { per_kwu: 0 }, 0);
    let out = select_coin_lowestlarger(&inputs, opt).expect("small candidates suffice");
    // 1000 alone is below the threshold; the smallest larger candidate joins.
    assert_eq!(out.selected_inputs, vec![0, 1]);
}

#[test]
fn fifo_waste_matches_independent_recomputation() {
    // One candidate, ToFee: the waste must equal the surplus recomputed by
    // hand from the returned indices against the original list.
    let inputs = vec![aged(1000, 100, 1)];
    let mut opt = options(900, FeeRate { per_kwu: 500 }, 0);
    opt.excess_strategy = ExcessStrategy::ToFee;
    let out = select_coin_fifo(&inputs, opt).expect("1000 covers 900 + fee 50");
    assert_eq!(out.selected_inputs, vec![0]);
    let value: u64 = out.selected_inputs.iter().map(|&i| inputs[i].value).sum();
    let weight: u64 = out.selected_inputs.iter().map(|&i| inputs[i].weight as u64).sum();
    let fee = weight / 2;
    assert_eq!(out.waste.0, value - opt.target_value - fee);
    assert_eq!(out.waste.0, 50);
}

#[test]
fn insufficiency_is_monotonic_in_target() {
    // Once a heuristic reports InsufficientFunds for a target, it keeps
    // doing so for every larger target over the same candidates.
    let inputs = setup_basic_output_groups();
    for target in [7000u64, 8000, 100_000] {
        let opt = options(target, FeeRate { per_kwu: 330 }, 500);
        assert!(matches!(
            select_coin_fifo(&inputs, opt),
            Err(SelectionError::InsufficientFunds)
        ));
        assert!(matches!(
            select_coin_lowestlarger(&inputs, opt),
            Err(SelectionError::InsufficientFunds)
        ));
    }
}

#[test]
fn lowestlarger_insufficient() {
    let inputs = vec![create_output_group(100, 10, 1, false, None)];
    let opt = options(7000, FeeRate { per_kwu: 0 }, 0);
    assert!(matches!(
        select_coin_lowestlarger(&inputs, opt),
        Err(SelectionError::InsufficientFunds)
    ));
}
