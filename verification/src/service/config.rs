//! Tuning parameters of the service.
use vstd::prelude::*;

verus! {

/// Configuration for the transaction processing service.
pub struct ServiceConfig {
    /// Number of messages to buffer before flushing a batch.
    pub batch_size: usize,
}

impl Default for ServiceConfig {
    fn default() -> (r: Self)
        ensures
            r.batch_size == 10,
    {
        Self { batch_size: 10 }
    }
}

} // verus!
