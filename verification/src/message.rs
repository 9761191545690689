//! Messages that enter and leave the engine: parsed transactions and account
//! snapshots.
use vstd::prelude::*;
use core::cmp::Ordering;
use crate::domain::account::{Account, AccountModel};
use crate::domain::amount::{amount_text, Amount};
use crate::domain::transaction::{ClientId, TransactionId, TransactionType};
use crate::text::{decimal_digits, write_decimal};

verus! {

/// A parsed transaction from the CSV input.
///
/// Chrono order is the sequence number (total order) of the event/message.
/// Messages are processed oldest first: by chrono order, then client, then
/// transaction ID. The comparison operators are reversed accordingly, so an
/// older message compares greater (it has the higher processing priority).
#[derive(Debug, Clone, Copy)]
pub struct InputMessage {
    /// Monotonically increasing sequence number assigned at parse time.
    pub chrono_order: u64,
    /// The operation this message represents.
    pub transaction_type: TransactionType,
    /// The client this transaction belongs to.
    pub client_id: ClientId,
    /// Unique transaction identifier.
    pub transaction_id: TransactionId,
    /// The monetary amount for the operation.
    pub amount: Amount,
}

/// Whether `a` is processed strictly before `b`: it is earlier in chrono
/// order, then in client ID, then in transaction ID.
pub open spec fn precedes(a: InputMessage, b: InputMessage) -> bool {
    ||| a.chrono_order < b.chrono_order
    ||| (a.chrono_order == b.chrono_order && a.client_id < b.client_id)
    ||| (a.chrono_order == b.chrono_order && a.client_id == b.client_id && a.transaction_id
        < b.transaction_id)
}

/// Whether `a` and `b` hold the same place in processing order.
pub open spec fn same_position(a: InputMessage, b: InputMessage) -> bool {
    &&& a.chrono_order == b.chrono_order
    &&& a.client_id == b.client_id
    &&& a.transaction_id == b.transaction_id
}

/// Processing order is the lexicographic order on (chrono order, client ID,
/// transaction ID): an earlier chrono order always comes first, whatever the
/// client or transaction; on equal chrono order the lower client ID, then the
/// lower transaction ID, comes first.
pub proof fn law_precedes_is_lexicographic(a: InputMessage, b: InputMessage)
    ensures
        a.chrono_order < b.chrono_order ==> precedes(a, b),
        b.chrono_order < a.chrono_order ==> !precedes(a, b),
        a.chrono_order == b.chrono_order && a.client_id < b.client_id ==> precedes(a, b),
        a.chrono_order == b.chrono_order && b.client_id < a.client_id ==> !precedes(a, b),
        a.chrono_order == b.chrono_order && a.client_id == b.client_id ==> (precedes(a, b) <==> a.transaction_id
            < b.transaction_id),
{
}

impl InputMessage {
    /// Whether `self` is processed strictly before `other`.
    pub fn precedes(&self, other: &InputMessage) -> (r: bool)
        ensures
            r == precedes(*self, *other),
    {
        self.chrono_order < other.chrono_order || (self.chrono_order == other.chrono_order
            && self.client_id < other.client_id) || (self.chrono_order == other.chrono_order
            && self.client_id == other.client_id && self.transaction_id < other.transaction_id)
    }
}

impl PartialEq for InputMessage {
    fn eq(&self, other: &Self) -> (r: bool) {
        self.chrono_order == other.chrono_order && self.client_id == other.client_id
            && self.transaction_id == other.transaction_id
    }
}

impl vstd::std_specs::cmp::PartialEqSpecImpl for InputMessage {
    open spec fn obeys_eq_spec() -> bool {
        true
    }

    open spec fn eq_spec(&self, other: &Self) -> bool {
        same_position(*self, *other)
    }
}

impl Eq for InputMessage {

}

/// The reversed processing order: an older message is the greater one.
pub open spec fn priority_order(a: InputMessage, b: InputMessage) -> Option<Ordering> {
    if precedes(a, b) {
        Some(Ordering::Greater)
    } else if same_position(a, b) {
        Some(Ordering::Equal)
    } else {
        Some(Ordering::Less)
    }
}

impl PartialOrd for InputMessage {
    fn partial_cmp(&self, other: &Self) -> (r: Option<Ordering>) {
        if self.precedes(other) {
            Some(Ordering::Greater)
        } else if self.chrono_order == other.chrono_order && self.client_id == other.client_id
            && self.transaction_id == other.transaction_id {
            Some(Ordering::Equal)
        } else {
            Some(Ordering::Less)
        }
    }
}

impl vstd::std_specs::cmp::PartialOrdSpecImpl for InputMessage {
    open spec fn obeys_partial_cmp_spec() -> bool {
        true
    }

    open spec fn partial_cmp_spec(&self, other: &Self) -> Option<Ordering> {
        priority_order(*self, *other)
    }
}

/// A snapshot of an account's balances for output.
#[derive(Debug, Clone, Copy)]
pub struct OutputMessage {
    /// The client this snapshot belongs to.
    pub client_id: ClientId,
    /// Funds available for withdrawal.
    pub available: Amount,
    /// Funds held due to pending disputes.
    pub held: Amount,
    /// Total funds (`available + held`).
    pub total: Amount,
    /// Whether the account is frozen.
    pub locked: bool,
}

impl<'a> From<&'a Account> for OutputMessage {
    fn from(account: &'a Account) -> (r: OutputMessage) {
        broadcast use crate::domain::amount::lemma_amount_view_injective;

        OutputMessage::from_account(account)
    }
}

impl<'a> vstd::std_specs::convert::FromSpecImpl<&'a Account> for OutputMessage {
    open spec fn obeys_from_spec() -> bool {
        true
    }

    open spec fn from_spec(account: &'a Account) -> OutputMessage {
        OutputMessage {
            client_id: account.client_id,
            available: account.available,
            held: account.held,
            total: account.total,
            locked: account.locked,
        }
    }
}

/// The text of a flag as it appears in the output.
pub open spec fn flag_text(b: bool) -> Seq<char> {
    if b {
        "true"@
    } else {
        "false"@
    }
}

/// The text of the fields of a record.
pub open spec fn record_text(v: Vec<String>) -> Seq<Seq<char>> {
    v@.map_values(|f: String| f@)
}

/// The output header: the names of the columns, in order.
pub open spec fn header_record() -> Seq<Seq<char>> {
    seq!["client"@, "available"@, "held"@, "total"@, "locked"@]
}

/// The output row of an account: its client ID in decimal, its three
/// balances with four decimal places, and its lock flag.
pub open spec fn account_record(a: AccountModel) -> Seq<Seq<char>> {
    seq![
        decimal_digits(a.client_id as nat),
        amount_text(a.available),
        amount_text(a.held),
        amount_text(a.total),
        flag_text(a.locked),
    ]
}

impl OutputMessage {
    /// Whether this snapshot shows the balances of account `a`.
    pub open spec fn shows(self, a: AccountModel) -> bool {
        &&& self.client_id == a.client_id
        &&& self.available@ == a.available
        &&& self.held@ == a.held
        &&& self.total@ == a.total
        &&& self.locked == a.locked
    }

    /// The snapshot of an account.
    pub fn from_account(account: &Account) -> (r: Self)
        ensures
            r.shows(account@),
    {
        OutputMessage {
            client_id: account.client_id,
            available: account.available,
            held: account.held,
            total: account.total,
            locked: account.locked,
        }
    }

    /// The names of the output columns, in order.
    pub fn header() -> (r: Vec<String>)
        ensures
            r@.len() == 5,
            r@[0]@ == "client"@,
            r@[1]@ == "available"@,
            r@[2]@ == "held"@,
            r@[3]@ == "total"@,
            r@[4]@ == "locked"@,
    {
        let mut r: Vec<String> = Vec::new();
        r.push("client".to_owned());
        r.push("available".to_owned());
        r.push("held".to_owned());
        r.push("total".to_owned());
        r.push("locked".to_owned());
        r
    }

    /// The output fields of the snapshot, in column order: the client ID in
    /// decimal, the three balances with four decimal places, and the lock
    /// flag as `true` or `false`.
    pub fn to_record(&self) -> (r: Vec<String>)
        ensures
            r@.len() == 5,
            r@[0]@ == decimal_digits(self.client_id as nat),
            r@[1]@ == amount_text(self.available@),
            r@[2]@ == amount_text(self.held@),
            r@[3]@ == amount_text(self.total@),
            r@[4]@ == flag_text(self.locked),
    {
        let mut client = String::new();
        write_decimal(&mut client, self.client_id as u128);
        assert(client@ =~= decimal_digits(self.client_id as nat));
        let mut r: Vec<String> = Vec::new();
        r.push(client);
        r.push(self.available.to_string());
        r.push(self.held.to_string());
        r.push(self.total.to_string());
        let flag = if self.locked {
            "true"
        } else {
            "false"
        };
        r.push(flag.to_owned());
        r
    }
}

} // verus!
