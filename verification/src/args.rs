//! The input path argument.
use vstd::prelude::*;

verus! {

/// The path of the input CSV file containing transaction history.
pub struct CliArgs {
    /// Input CSV file path containing transaction history
    pub path: String,
}

} // verus!
