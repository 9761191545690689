//! Core domain types: accounts, amounts and transactions.
pub mod account;
pub mod amount;
pub mod invariant_check;
pub mod sequencer;
pub mod transaction;

pub use account::Account;
pub use amount::Amount;
pub use transaction::{ClientId, TransactionId, TransactionType};
