//! The data model: candidate output groups, selection options, results and
//! errors.

use vstd::prelude::*;

verus! {

/// An `OutputGroup` represents one candidate for coin selection: a single
/// UTXO, or a group of UTXOs that must be spent together.  The engine never
/// mutates a group; it only selects or rejects it by index.
#[derive(Debug, Clone, Copy)]
pub struct OutputGroup {
    /// Total value of the UTXO(s) that this group represents.
    pub value: u64,
    /// Total transaction weight added by spending this group.
    pub weight: u32,
    /// Number of underlying inputs, for var-int size adjustments downstream.
    pub input_count: usize,
    /// Whether the group contains at least one segwit spend.
    pub is_segwit: bool,
    /// Relative age of the group among the candidate set; lower means older.
    /// `None` makes the group sort after every aged group in FIFO selection.
    pub creation_sequence: Option<u32>,
}

/// A fee rate held exactly as an integer: base currency units per 1000 weight
/// units.  A rate of half a unit per weight unit is written `FeeRate { per_kwu:
/// 500 }`.  Keeping the rate integral lets every fee be computed with exact
/// integer arithmetic, with one explicit ceiling division at the fee boundary.
#[derive(Debug, Clone, Copy)]
pub struct FeeRate {
    /// Base currency units charged for 1000 weight units.
    pub per_kwu: u64,
}

/// The target and cost configuration for one selection attempt.  All fields
/// are read-only for the duration of a call.
#[derive(Debug, Clone, Copy)]
pub struct CoinSelectionOpt {
    /// The value that the selection must cover.
    pub target_value: u64,
    /// The fee rate the transaction aims for.
    pub target_feerate: FeeRate,
    /// The long-term fee rate, used only by the waste metric's long-term cost
    /// term; `None` drops that term.
    pub long_term_feerate: Option<FeeRate>,
    /// A floor on the computed fee.
    pub min_absolute_fee: u64,
    /// Weight of the transaction skeleton before any selected input.
    pub base_weight: u32,
    /// Additional weight if a drain (change) output is added.
    pub drain_weight: u32,
    /// Cost of creating and later spending a drain output.
    pub drain_cost: u64,
    /// Estimated marginal cost of spending one input; half of the
    /// branch-and-bound acceptance window.
    pub cost_per_input: u64,
    /// Estimated marginal cost of one output; the other half of the window.
    pub cost_per_output: u64,
    /// Smallest drain output considered worth creating.
    pub min_drain_value: u64,
    /// What to do with value beyond the target and the fee.
    pub excess_strategy: ExcessStrategy,
}

/// Policy for the excess value beyond target and fee: give it to the miners,
/// to the recipient, or to a new drain (change) output.
#[derive(Clone, Copy, Debug, PartialEq, Eq, Structural)]
pub enum ExcessStrategy {
    ToFee,
    ToRecipient,
    ToDrain,
}

/// Failure of one selection attempt.  `InsufficientFunds` is reported by the
/// heuristic sweeps when even the whole eligible candidate set stays below the
/// required threshold; `NoSolutionFound` is reported by branch-and-bound when
/// the search space or the try budget is exhausted without a match.
#[derive(Debug, Clone, Copy, PartialEq, Eq, Structural)]
pub enum SelectionError {
    InsufficientFunds,
    NoSolutionFound,
}

/// The waste of a selection, in base currency units; lower is better.  It is
/// the single ranking key used to compare selections across strategies.
#[derive(Debug, Clone, Copy, PartialEq, Eq, Structural)]
pub struct WasteMetric(pub u64);

/// A successful selection: the chosen indices into the caller's candidate
/// list, and the waste of that choice.
#[derive(Debug, Clone)]
pub struct SelectionOutput {
    /// Indices into the original (unsorted) candidate list; unique, in range,
    /// in no promised order.
    pub selected_inputs: Vec<usize>,
    /// The waste metric of the selection above.
    pub waste: WasteMetric,
}

/// Builds one candidate output group from its parts.
pub fn create_output_group(
    value: u64,
    weight: u32,
    input_count: usize,
    is_segwit: bool,
    creation_sequence: Option<u32>,
) -> (r: OutputGroup)
    ensures
        r == (OutputGroup { value, weight, input_count, is_segwit, creation_sequence }),
{
    OutputGroup { value, weight, input_count, is_segwit, creation_sequence }
}

/// A small fixed candidate set of three single-input groups, handy as a
/// starting point for callers and tests.
pub fn setup_basic_output_groups() -> (r: Vec<OutputGroup>)
    ensures
        r@.len() == 3,
        r@[0] == (OutputGroup {
            value: 1000,
            weight: 100,
            input_count: 1,
            is_segwit: false,
            creation_sequence: None,
        }),
        r@[1] == (OutputGroup {
            value: 2000,
            weight: 200,
            input_count: 1,
            is_segwit: false,
            creation_sequence: None,
        }),
        r@[2] == (OutputGroup {
            value: 3000,
            weight: 300,
            input_count: 1,
            is_segwit: false,
            creation_sequence: None,
        }),
{
    let mut groups: Vec<OutputGroup> = Vec::new();
    groups.push(create_output_group(1000, 100, 1, false, None));
    groups.push(create_output_group(2000, 200, 1, false, None));
    groups.push(create_output_group(3000, 300, 1, false, None));
    groups
}

} // verus!
