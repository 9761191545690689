//! Errors that an account operation reports.
use vstd::prelude::*;

verus! {

/// Errors that can occur when processing a transaction against an account.
#[derive(Debug, Clone, Copy, PartialEq, Eq, Structural)]
pub enum TransactionError {
    /// Withdrawal amount exceeds available funds.
    InsufficientBalance,
    /// The account is frozen due to a prior chargeback.
    AccountLocked,
    /// A resolve or chargeback was attempted on a transaction that is not currently disputed.
    TransactionNotDisputed,
    /// The referenced transaction ID does not exist in the account.
    InvalidTransaction,
    /// A deposit or withdrawal reused an existing transaction ID.
    DuplicateTransaction,
    /// A transition attempted to move a transaction back to the Normal state.
    CannotRevertToNormal,
    /// The amount of a transaction is negative.
    AmountNegative,
    /// The transaction is already in a terminal state.
    TransactionTerminalState,
    /// The transaction is already disputed.
    AlreadyDisputed,
}

impl TransactionError {
    /// The human-readable description of the error.
    pub fn message(&self) -> (r: &'static str)
        ensures
            r@ == transaction_error_text(*self),
    {
        match self {
            TransactionError::InsufficientBalance => "Unable to withdraw due to insufficient balance",
            TransactionError::AccountLocked => "The account is locked",
            TransactionError::TransactionNotDisputed => "Transaction is not disputed",
            TransactionError::InvalidTransaction => "Unable to resolve the transaction",
            TransactionError::DuplicateTransaction => "Cannot add the transaction because it has already been added",
            TransactionError::CannotRevertToNormal => "Unable to revert to a normal state",
            TransactionError::AmountNegative => "Cannot accept transaction because the amount is negative",
            TransactionError::TransactionTerminalState => "Transaction is already in a terminal state",
            TransactionError::AlreadyDisputed => "Cannot dispute an already disputed transaction",
        }
    }
}

/// The description of each error.
pub open spec fn transaction_error_text(e: TransactionError) -> Seq<char> {
    match e {
        TransactionError::InsufficientBalance => "Unable to withdraw due to insufficient balance"@,
        TransactionError::AccountLocked => "The account is locked"@,
        TransactionError::TransactionNotDisputed => "Transaction is not disputed"@,
        TransactionError::InvalidTransaction => "Unable to resolve the transaction"@,
        TransactionError::DuplicateTransaction => "Cannot add the transaction because it has already been added"@,
        TransactionError::CannotRevertToNormal => "Unable to revert to a normal state"@,
        TransactionError::AmountNegative => "Cannot accept transaction because the amount is negative"@,
        TransactionError::TransactionTerminalState => "Transaction is already in a terminal state"@,
        TransactionError::AlreadyDisputed => "Cannot dispute an already disputed transaction"@,
    }
}

} // verus!
