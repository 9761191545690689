//! Identifiers and kinds of transactions.
use vstd::prelude::*;
use crate::text::text_equals;

verus! {

/// Unique identifier for a client (max 65 535 clients).
pub type ClientId = u16;

/// Unique identifier for a transaction (max ~4 billion).
pub type TransactionId = u32;

/// The type of operation a transaction row represents.
#[derive(Debug, Clone, Copy, PartialEq, Eq, Structural)]
pub enum TransactionType {
    /// Credit funds into an account.
    Deposit,
    /// Debit funds from an account.
    Withdrawal,
    /// Open a dispute on an existing transaction.
    Dispute,
    /// Resolve an open dispute, returning held funds to available.
    Resolve,
    /// Charge back a disputed transaction, removing funds and locking the account.
    Chargeback,
}

/// The transaction type that a lowercase name denotes.
pub open spec fn transaction_type_named(s: Seq<char>) -> Option<TransactionType> {
    if s == "deposit"@ {
        Some(TransactionType::Deposit)
    } else if s == "withdrawal"@ {
        Some(TransactionType::Withdrawal)
    } else if s == "dispute"@ {
        Some(TransactionType::Dispute)
    } else if s == "resolve"@ {
        Some(TransactionType::Resolve)
    } else if s == "chargeback"@ {
        Some(TransactionType::Chargeback)
    } else {
        None
    }
}

impl TransactionType {
    /// Parses a lowercase string (e.g. `"deposit"`) into a [`TransactionType`].
    /// Returns `None` for unrecognised strings.
    pub fn from_str(s: &str) -> (r: Option<Self>)
        ensures
            r == transaction_type_named(s@),
    {
        if text_equals(s, "deposit") {
            Some(TransactionType::Deposit)
        } else if text_equals(s, "withdrawal") {
            Some(TransactionType::Withdrawal)
        } else if text_equals(s, "dispute") {
            Some(TransactionType::Dispute)
        } else if text_equals(s, "resolve") {
            Some(TransactionType::Resolve)
        } else if text_equals(s, "chargeback") {
            Some(TransactionType::Chargeback)
        } else {
            None
        }
    }

    /// The lowercase name of the type, as `from_str` reads it.
    pub fn label(&self) -> (r: &'static str)
        ensures
            transaction_type_named(r@) == Some(*self),
    {
        proof {
            reveal_strlit("deposit");
            reveal_strlit("withdrawal");
            reveal_strlit("dispute");
            reveal_strlit("resolve");
            reveal_strlit("chargeback");
            assert("deposit"@.len() == 7 && "dispute"@.len() == 7 && "resolve"@.len() == 7);
            assert("withdrawal"@.len() == 10 && "chargeback"@.len() == 10);
            assert("deposit"@[2] != "dispute"@[2]);
            assert("deposit"@[0] != "resolve"@[0] && "dispute"@[0] != "resolve"@[0]);
            assert("withdrawal"@[0] != "chargeback"@[0]);
        }
        match self {
            TransactionType::Deposit => "deposit",
            TransactionType::Withdrawal => "withdrawal",
            TransactionType::Dispute => "dispute",
            TransactionType::Resolve => "resolve",
            TransactionType::Chargeback => "chargeback",
        }
    }
}

} // verus!
