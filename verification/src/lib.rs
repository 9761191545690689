//! A payments engine that processes transaction streams.
//!
//! Deposits, withdrawals, disputes, resolves and chargebacks are applied to
//! per-client accounts in chronological order; amounts are fixed-point with
//! four decimal places; account snapshots are produced for output.
pub mod args;
pub mod cli;
pub mod domain;
pub mod infrastructure;
pub mod message;
pub mod service;
pub mod text;

pub use cli::CliArgs;
pub use domain::{Account, Amount, ClientId, TransactionId, TransactionType};
pub use message::{InputMessage, OutputMessage};
pub use service::config::ServiceConfig;
pub use service::{Service, ServiceMessage};
