use std::collections::HashSet;

use coinselect::create_output_group;
use coinselect::select_coin;
use coinselect::setup_basic_output_groups;
use coinselect::CoinSelectionOpt;
use coinselect::ExcessStrategy;
use coinselect::FeeRate;
use coinselect::SelectionError;

#[test]
fn select_coin_returns_valid_selection() {
    let inputs = setup_basic_output_groups();
    let opt = CoinSelectionOpt {
        target_value: 1000,
        target_feerate: FeeRate { per_kwu: 330 },
        long_term_feerate: None,
        min_absolute_fee: 0,
        base_weight: 10,
        drain_weight: 50,
        drain_cost: 10,
        cost_per_input: 20,
        cost_per_output: 10,
        min_drain_value: 500,
        excess_strategy: ExcessStrategy::ToDrain,
    };
    let mut rng = rand::thread_rng();
    let out = select_coin(&inputs, opt, &mut rng).expect("6000 total covers the target");
    let mut seen = HashSet::new();
    for &i in &out.selected_inputs {
        assert!(i < inputs.len());
        assert!(seen.insert(i), "duplicate index {:?}", i);
    }
}

#[test]
fn select_coin_keeps_the_lowest_waste() {
    // Two candidates of equal value: a heavy one (index 0) and a light,
    // older one (index 1).  With a long-term rate of zero the waste of a
    // selection is its weight-spread cost plus the drain cost, so the light
    // candidate's selection (10 + 10 = 20) must win over the heavy one's
    // (1000 + 10 = 1010), whichever strategies happen to find each.
    let inputs = vec![
        create_output_group(10000, 1000, 1, false, Some(2)),
        create_output_group(10000, 10, 1, false, Some(1)),
    ];
    let opt = CoinSelectionOpt {
        target_value: 5000,
        target_feerate: FeeRate { per_kwu: 1000 },
        long_term_feerate: Some(FeeRate { per_kwu: 0 }),
        min_absolute_fee: 0,
        base_weight: 10,
        drain_weight: 50,
        drain_cost: 10,
        cost_per_input: 0,
        cost_per_output: 0,
        min_drain_value: 0,
        excess_strategy: ExcessStrategy::ToDrain,
    };
    let mut rng = rand::thread_rng();
    let out = select_coin(&inputs, opt, &mut rng).expect("either candidate covers the target");
    assert_eq!(out.selected_inputs, vec![1]);
    assert_eq!(out.waste.0, 20);
}

#[test]
fn select_coin_propagates_insufficient_funds() {
    let inputs = vec![create_output_group(100, 10, 1, false, None)];
    let opt = CoinSelectionOpt {
        target_value: 7000,
        target_feerate: FeeRate { per_kwu: 330 },
        long_term_feerate: None,
        min_absolute_fee: 0,
        base_weight: 10,
        drain_weight: 50,
        drain_cost: 10,
        cost_per_input: 20,
        cost_per_output: 10,
        min_drain_value: 500,
        excess_strategy: ExcessStrategy::ToDrain,
    };
    let mut rng = rand::thread_rng();
    assert!(matches!(
        select_coin(&inputs, opt, &mut rng),
        Err(SelectionError::InsufficientFunds)
    ));
}
