use coinselect::create_output_group;
use coinselect::select_coin_bnb;
use coinselect::setup_basic_output_groups;
use coinselect::CoinSelectionOpt;
use coinselect::ExcessStrategy;
use coinselect::FeeRate;
use coinselect::OutputGroup;
use coinselect::SelectionError;

fn new_setup_options(
    target_value: u64,
    target_feerate: FeeRate,
    long_term_feerate: Option<FeeRate>,
) -> CoinSelectionOpt {
    CoinSelectionOpt {
        target_value,
        target_feerate,
        long_term_feerate,
        min_absolute_fee: 0,
        base_weight: 10,
        drain_weight: 50,
        drain_cost: 10,
        cost_per_input: 20,
        cost_per_output: 10,
        min_drain_value: 500,
        excess_strategy: ExcessStrategy::ToDrain,
    }
}

/// Options with no fee at all, so exact raw-value matches are possible:
/// zero fee rate and no per-output cost offsetting the match target.
fn zero_fee_options(target_value: u64) -> CoinSelectionOpt {
    CoinSelectionOpt {
        target_value,
        target_feerate: FeeRate { per_kwu: 0 },
        long_term_feerate: None,
        min_absolute_fee: 0,
        base_weight: 10,
        drain_weight: 50,
        drain_cost: 10,
        cost_per_input: 20,
        cost_per_output: 0,
        min_drain_value: 500,
        excess_strategy: ExcessStrategy::ToDrain,
    }
}

#[test]
fn test_bnb_solution() {
    let values = [
        create_output_group(55000, 500, 1, false, None),
        create_output_group(400, 200, 1, false, None),
        create_output_group(40000, 300, 1, false, None),
        create_output_group(25000, 100, 1, false, None),
        create_output_group(35000, 150, 1, false, None),
        create_output_group(600, 250, 1, false, None),
        create_output_group(30000, 120, 1, false, None),
        create_output_group(5000, 50, 1, false, None),
    ]
    .to_vec();
    // Half a unit per weight unit, held exactly as 500 per 1000 weight units.
    let opt = new_setup_options(5730, FeeRate { per_kwu: 500 }, None);
    let mut rng = rand::thread_rng();
    let ans = select_coin_bnb(&values, opt, &mut rng);
    if let Ok(selection_output) = ans {
        let expected_solution = vec![7, 5, 1];
        assert_eq!(
            selection_output.selected_inputs, expected_solution,
            "Expected solution {:?}, but got {:?}",
            expected_solution, selection_output.selected_inputs
        );
    } else {
        assert!(false, "Failed to find a solution");
    }
}

#[test]
fn test_bnb_no_solution() {
    let inputs = setup_basic_output_groups();
    let total_input_value: u64 = inputs.iter().map(|input| input.value).sum();
    let impossible_target = total_input_value + 1000;
    let options = new_setup_options(
        impossible_target,
        FeeRate { per_kwu: 500 },
        Some(FeeRate { per_kwu: 100 }),
    );
    let mut rng = rand::thread_rng();
    let result = select_coin_bnb(&inputs, options, &mut rng);
    assert!(
        matches!(result, Err(SelectionError::NoSolutionFound)),
        "Expected NoSolutionFound error, got {:?}",
        result
    );
}

#[test]
fn test_bnb_exact_match() {
    let inputs = vec![
        create_output_group(1000, 100, 1, false, None),
        create_output_group(2000, 200, 1, false, None),
        create_output_group(2000, 200, 1, false, None),
    ];
    let options = zero_fee_options(5000);
    let mut rng = rand::thread_rng();

    let result = select_coin_bnb(&inputs, options, &mut rng);
    assert!(result.is_ok(), "Expected Ok(_) value, got Err");
    let selection_output = result.unwrap();
    assert!(!selection_output.selected_inputs.is_empty());

    let selected_values: u64 = selection_output
        .selected_inputs
        .iter()
        .map(|&i| inputs[i].value)
        .sum();
    assert_eq!(selected_values, 5000);
}

#[test]
fn bnb_test_no_match() {
    let inputs = vec![
        create_output_group(1000, 100, 1, false, None),
        create_output_group(1500, 150, 1, false, None),
        create_output_group(2000, 200, 1, false, None),
    ];
    let options = new_setup_options(
        5000,
        FeeRate { per_kwu: 330 },
        Some(FeeRate { per_kwu: 400 }),
    );
    let mut rng = rand::thread_rng();

    let result = select_coin_bnb(&inputs, options, &mut rng);
    assert!(result.is_err());
}

#[test]
fn bnb_test_multiple_solutions() {
    let inputs = vec![
        create_output_group(2000, 200, 1, false, None),
        create_output_group(3000, 300, 1, false, None),
        create_output_group(3000, 300, 1, false, None),
    ];
    let options = zero_fee_options(5000);
    let mut rng = rand::thread_rng();

    let result = select_coin_bnb(&inputs, options, &mut rng);
    assert!(result.is_ok(), "Expected Ok(_) value, got Err");
    let selection_output = result.unwrap();
    assert!(!selection_output.selected_inputs.is_empty());
    assert_eq!(selection_output.selected_inputs.len(), 2);
}

#[test]
fn bnb_test_single_input_match() {
    let inputs = vec![create_output_group(5000, 500, 1, false, None)];
    let options = zero_fee_options(5000);
    let mut rng = rand::thread_rng();

    let result = select_coin_bnb(&inputs, options, &mut rng);
    assert!(result.is_ok(), "Expected Ok(_) value, got Err");
    let selection_output = result.unwrap();
    assert!(!selection_output.selected_inputs.is_empty());
    assert_eq!(selection_output.selected_inputs.len(), 1);
    assert_eq!(selection_output.selected_inputs, vec![0]);
}

#[test]
fn bnb_test_random_branching() {
    let inputs = vec![
        create_output_group(1000, 100, 1, false, None),
        create_output_group(2000, 200, 1, false, None),
        create_output_group(3000, 300, 1, false, None),
        create_output_group(4000, 400, 1, false, None),
        create_output_group(5000, 500, 1, false, None),
    ];
    let options = zero_fee_options(5000);
    let mut rng = rand::thread_rng();

    let mut found_solutions = 0;
    for _ in 0..10 {
        let result = select_coin_bnb(&inputs, options, &mut rng);
        if result.is_ok() {
            found_solutions += 1;
        }
    }
    assert!(
        found_solutions > 0,
        "Expected at least one solution, but found none"
    );
}

#[test]
fn bnb_insufficient_bal() {
    let inputs = vec![create_output_group(1000, 100, 1, false, None)];
    let options = new_setup_options(
        7000,
        FeeRate { per_kwu: 330 },
        Some(FeeRate { per_kwu: 400 }),
    );
    let result = select_coin_bnb(&inputs, options, &mut rand::thread_rng());
    assert!(matches!(result, Err(SelectionError::NoSolutionFound)));
}

/// The exact-match scenario end to end: at half a unit per weight unit the
/// only subset inside the acceptance window is {5000, 600, 400}, and with
/// the drain excess strategy the waste is the drain cost, not the surplus.
#[test]
fn bnb_window_and_drain_waste() {
    let values: Vec<OutputGroup> = vec![
        create_output_group(55000, 500, 1, false, None),
        create_output_group(400, 200, 1, false, None),
        create_output_group(40000, 300, 1, false, None),
        create_output_group(25000, 100, 1, false, None),
        create_output_group(35000, 150, 1, false, None),
        create_output_group(600, 250, 1, false, None),
        create_output_group(30000, 120, 1, false, None),
        create_output_group(5000, 50, 1, false, None),
    ];
    let opt = new_setup_options(5730, FeeRate { per_kwu: 500 }, None);
    let mut rng = rand::thread_rng();
    let out = select_coin_bnb(&values, opt, &mut rng).expect("a match exists");
    // target_for_match = 5730 + ceil(10 * 0.5) + 10 = 5745; window reaches 5775.
    let effective_sum: u64 = out
        .selected_inputs
        .iter()
        .map(|&i| values[i].value - (values[i].weight as u64 + 1) / 2)
        .sum();
    assert!(effective_sum >= 5745 && effective_sum <= 5775);
    let raw_sum: u64 = out.selected_inputs.iter().map(|&i| values[i].value).sum();
    assert_eq!(raw_sum, 6000);
    assert_eq!(out.waste.0, 10);
}
