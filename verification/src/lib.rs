//! A coin-selection engine for wallet software.
//!
//! Given a list of candidate output groups (spendable units with a value and a
//! transaction weight) and the options for one selection attempt, the engine
//! picks a subset of candidate indices that covers the target amount plus
//! fees, and scores the pick with a waste metric so results from different
//! strategies can be compared.

pub mod types;
pub mod cost;
pub mod model;
pub mod waste;
pub mod ordering;
pub mod sweep;
pub mod fifo;
pub mod random_source;
pub mod srd;
pub mod lowest_larger;
pub mod bnb;
pub mod select;
pub mod laws;

pub use bnb::select_coin_bnb;
pub use bnb::MatchParameters;
pub use cost::calculate_fee;
pub use cost::effective_value;
pub use fifo::select_coin_fifo;
pub use lowest_larger::select_coin_lowestlarger;
pub use select::select_coin;
pub use srd::select_coin_srd;
pub use types::create_output_group;
pub use types::setup_basic_output_groups;
pub use types::CoinSelectionOpt;
pub use types::ExcessStrategy;
pub use types::FeeRate;
pub use types::OutputGroup;
pub use types::SelectionError;
pub use types::SelectionOutput;
pub use types::WasteMetric;
pub use waste::calculate_waste;
