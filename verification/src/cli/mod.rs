//! Command-line arguments of the engine.
use vstd::prelude::*;

verus! {

/// The arguments of the payments engine.
#[derive(Debug)]
pub struct CliArgs {
    /// Input CSV file path
    pub input_file: String,
}

} // verus!
