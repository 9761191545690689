//! Client accounts: balances and the lifecycle of each recorded transaction.
use vstd::prelude::*;
use std::collections::{HashMap, HashSet};
use crate::domain::amount::{fits_i64, Amount};
use crate::domain::transaction::{ClientId, TransactionId, TransactionType};
use crate::message::InputMessage;
use crate::service::error::TransactionError;
pub use crate::domain::invariant_check::check_invariants;

verus! {

broadcast use vstd::std_specs::hash::group_hash_axioms;

/// The lifecycle state of a transaction within an account.
#[derive(Debug, Clone, Copy, PartialEq, Eq, Structural)]
pub enum TransactionState {
    /// Initial state after deposit or withdrawal.
    Normal,
    /// Transaction is under dispute; funds moved from available to held.
    Disputed,
    /// Dispute has been resolved; funds returned to available.
    Resolved,
    /// Dispute resulted in a chargeback; account is locked.
    Chargeback,
}

/// Whether a transaction in state `from` may move to `to`, and if not, why.
///
/// Nothing moves back to `Normal`; `Chargeback` is terminal; a dispute may
/// start from `Normal`, `Disputed` (it accumulates) or `Resolved` (a
/// re-dispute); a resolve or a chargeback needs a `Disputed` transaction.
pub open spec fn transition_check(from: TransactionState, to: TransactionState) -> Result<
    (),
    TransactionError,
> {
    match (from, to) {
        (_, TransactionState::Normal) => Err(TransactionError::CannotRevertToNormal),
        (TransactionState::Chargeback, _) => Err(TransactionError::AccountLocked),
        (_, TransactionState::Disputed) => Ok(()),
        (TransactionState::Disputed, _) => Ok(()),
        _ => Err(TransactionError::TransactionNotDisputed),
    }
}

/// The IDs of the transactions of `states` that are in state `st`.
pub open spec fn ids_in(states: Map<TransactionId, TransactionState>, st: TransactionState) -> Set<
    TransactionId,
> {
    Set::new(|k: TransactionId| states.contains_key(k) && states[k] == st)
}

/// Every scaled message amount lies within this distance of zero (the `i64`
/// range), so an account with `n` recorded transactions has balances within
/// `balance_bound(n)`.
pub open spec fn balance_bound(n: nat) -> int {
    (n * 0x8000_0000_0000_0000) as int
}

/// The sum of the held amounts of the disputed transactions.
pub open spec fn pending_sum(p: Map<TransactionId, int>) -> int
    decreases p.dom().len(),
    when p.dom().finite()
{
    if p.dom().len() == 0 {
        0
    } else {
        let k = p.dom().choose();
        p[k] + pending_sum(p.remove(k))
    }
}

/// The abstract state of an account.
pub struct AccountModel {
    pub client_id: ClientId,
    pub available: int,
    pub held: int,
    pub total: int,
    pub locked: bool,
    /// The state of each recorded transaction.
    pub states: Map<TransactionId, TransactionState>,
    /// The message that recorded each transaction.
    pub messages: Map<TransactionId, InputMessage>,
    /// The amount currently held for each disputed transaction.
    pub pending: Map<TransactionId, int>,
}

impl AccountModel {
    /// A new account: zero balances, unlocked, nothing recorded.
    pub open spec fn fresh(client_id: ClientId) -> Self {
        AccountModel {
            client_id,
            available: 0,
            held: 0,
            total: 0,
            locked: false,
            states: Map::empty(),
            messages: Map::empty(),
            pending: Map::empty(),
        }
    }

    /// What every account keeps true, whatever it is asked to do.
    pub open spec fn inv(self) -> bool {
        &&& self.states.dom().finite()
        &&& self.messages.dom() == self.states.dom()
        &&& self.pending.dom().finite()
        &&& forall|k: TransactionId| #[trigger]
            self.pending.contains_key(k) <==> (self.states.contains_key(k) && self.states[k]
                == TransactionState::Disputed)
        &&& forall|k: TransactionId| #[trigger] self.pending.contains_key(k) ==> self.pending[k] > 0
        &&& self.held == pending_sum(self.pending)
        &&& self.total == self.available + self.held
        &&& self.locked ==> exists|k: TransactionId| #[trigger]
            self.states.contains_key(k) && self.states[k] == TransactionState::Chargeback
        &&& forall|k: TransactionId| #[trigger]
            self.states.contains_key(k) && self.states[k] == TransactionState::Chargeback
                ==> self.locked
        &&& -balance_bound(self.states.dom().len()) <= self.available
        &&& self.total <= balance_bound(self.states.dom().len())
    }

    /// Whether transaction `id` may move to `target`, and if not, why.
    pub open spec fn lookup_transition(self, id: TransactionId, target: TransactionState) -> Result<
        (),
        TransactionError,
    > {
        if !self.states.contains_key(id) {
            Err(TransactionError::InvalidTransaction)
        } else {
            transition_check(self.states[id], target)
        }
    }

    /// The account with transaction `m` recorded in state `Normal`.
    pub open spec fn record(self, m: InputMessage) -> Self {
        AccountModel {
            states: self.states.insert(m.transaction_id, TransactionState::Normal),
            messages: self.messages.insert(m.transaction_id, m),
            ..self
        }
    }

    /// The outcome of a deposit.
    pub open spec fn deposit_result(self, m: InputMessage) -> Result<(), TransactionError> {
        if self.locked {
            Err(TransactionError::AccountLocked)
        } else if self.states.contains_key(m.transaction_id) {
            Err(TransactionError::DuplicateTransaction)
        } else if m.amount@ < 0 {
            Err(TransactionError::AmountNegative)
        } else {
            Ok(())
        }
    }

    /// The account after a deposit: the amount is added to available and
    /// total, and the transaction is recorded.
    pub open spec fn after_deposit(self, m: InputMessage) -> Self {
        if self.deposit_result(m) is Ok {
            AccountModel {
                available: self.available + m.amount@,
                total: self.total + m.amount@,
                ..self.record(m)
            }
        } else {
            self
        }
    }

    /// The outcome of a withdrawal.
    pub open spec fn withdrawal_result(self, m: InputMessage) -> Result<(), TransactionError> {
        if self.locked {
            Err(TransactionError::AccountLocked)
        } else if self.states.contains_key(m.transaction_id) {
            Err(TransactionError::DuplicateTransaction)
        } else if m.amount@ < 0 {
            Err(TransactionError::AmountNegative)
        } else if self.available < m.amount@ {
            Err(TransactionError::InsufficientBalance)
        } else {
            Ok(())
        }
    }

    /// The account after a withdrawal: the amount is taken from available and
    /// total, and the transaction is recorded.
    pub open spec fn after_withdrawal(self, m: InputMessage) -> Self {
        if self.withdrawal_result(m) is Ok {
            AccountModel {
                available: self.available - m.amount@,
                total: self.total - m.amount@,
                ..self.record(m)
            }
        } else {
            self
        }
    }

    /// The outcome of a dispute.
    pub open spec fn dispute_result(self, m: InputMessage) -> Result<(), TransactionError> {
        if self.locked {
            Err(TransactionError::AccountLocked)
        } else {
            self.lookup_transition(m.transaction_id, TransactionState::Disputed)
        }
    }

    /// The amount a dispute moves: the requested amount, capped at what is
    /// available.
    pub open spec fn dispute_amount(self, m: InputMessage) -> int {
        if m.amount@ <= self.available {
            m.amount@
        } else {
            self.available
        }
    }

    /// The amount already held for transaction `id` (zero if none).
    pub open spec fn held_for(self, id: TransactionId) -> int {
        if self.pending.contains_key(id) {
            self.pending[id]
        } else {
            0
        }
    }

    /// The account after a dispute: a positive disputed amount moves from
    /// available to held, accumulates on the transaction, and the transaction
    /// becomes `Disputed`. A dispute that moves nothing changes nothing.
    pub open spec fn after_dispute(self, m: InputMessage) -> Self {
        let k = m.transaction_id;
        let d = self.dispute_amount(m);
        if self.dispute_result(m) is Ok && d > 0 {
            AccountModel {
                available: self.available - d,
                held: self.held + d,
                pending: self.pending.insert(k, self.held_for(k) + d),
                states: self.states.insert(k, TransactionState::Disputed),
                ..self
            }
        } else {
            self
        }
    }

    /// The outcome of a resolve.
    pub open spec fn resolve_result(self, m: InputMessage) -> Result<(), TransactionError> {
        if self.locked {
            Err(TransactionError::AccountLocked)
        } else if self.lookup_transition(m.transaction_id, TransactionState::Resolved) is Err {
            self.lookup_transition(m.transaction_id, TransactionState::Resolved)
        } else if !self.pending.contains_key(m.transaction_id) {
            Err(TransactionError::TransactionNotDisputed)
        } else {
            Ok(())
        }
    }

    /// The amount a resolve or a chargeback acts on: the requested amount,
    /// capped at what is held for the transaction.
    pub open spec fn settle_amount(self, m: InputMessage) -> int {
        let d = self.pending[m.transaction_id];
        if m.amount@ < d {
            m.amount@
        } else {
            d
        }
    }

    /// The account after a resolve: a positive amount moves from held back to
    /// available. If some of the disputed amount stays held, the transaction
    /// stays `Disputed`; otherwise it becomes `Resolved`.
    pub open spec fn after_resolve(self, m: InputMessage) -> Self {
        let k = m.transaction_id;
        let r = self.settle_amount(m);
        let remaining = self.held_for(k) - r;
        if self.resolve_result(m) is Ok && r > 0 {
            AccountModel {
                held: self.held - r,
                available: self.available + r,
                pending: if remaining > 0 {
                    self.pending.insert(k, remaining)
                } else {
                    self.pending.remove(k)
                },
                states: if remaining > 0 {
                    self.states
                } else {
                    self.states.insert(k, TransactionState::Resolved)
                },
                ..self
            }
        } else {
            self
        }
    }

    /// The outcome of a chargeback.
    pub open spec fn chargeback_result(self, m: InputMessage) -> Result<(), TransactionError> {
        if self.locked {
            Err(TransactionError::AccountLocked)
        } else if self.lookup_transition(m.transaction_id, TransactionState::Chargeback) is Err {
            self.lookup_transition(m.transaction_id, TransactionState::Chargeback)
        } else if !self.pending.contains_key(m.transaction_id) {
            Err(TransactionError::TransactionNotDisputed)
        } else {
            Ok(())
        }
    }

    /// The amount a chargeback takes off the total: the requested amount,
    /// capped at what is held for the transaction; a request that is not
    /// positive takes nothing.
    pub open spec fn charged_amount(self, m: InputMessage) -> int {
        let cb = self.settle_amount(m);
        if cb > 0 {
            cb
        } else {
            0
        }
    }

    /// The account after a chargeback: whatever the amount, the transaction
    /// becomes `Chargeback` and the account is locked; total loses the
    /// charged-back amount, and everything held for the transaction is
    /// released (the part that is not charged back returns to available).
    pub open spec fn after_chargeback(self, m: InputMessage) -> Self {
        let k = m.transaction_id;
        let cb = self.charged_amount(m);
        let d = self.held_for(k);
        if self.chargeback_result(m) is Ok {
            AccountModel {
                held: self.held - d,
                total: self.total - cb,
                available: self.available + (d - cb),
                locked: true,
                pending: self.pending.remove(k),
                states: self.states.insert(k, TransactionState::Chargeback),
                ..self
            }
        } else {
            self
        }
    }

    /// The outcome of applying `m`, by its type.
    pub open spec fn apply_result(self, m: InputMessage) -> Result<(), TransactionError> {
        match m.transaction_type {
            TransactionType::Deposit => self.deposit_result(m),
            TransactionType::Withdrawal => self.withdrawal_result(m),
            TransactionType::Dispute => self.dispute_result(m),
            TransactionType::Resolve => self.resolve_result(m),
            TransactionType::Chargeback => self.chargeback_result(m),
        }
    }

    /// The account after applying `m`, by its type.
    pub open spec fn apply(self, m: InputMessage) -> Self {
        match m.transaction_type {
            TransactionType::Deposit => self.after_deposit(m),
            TransactionType::Withdrawal => self.after_withdrawal(m),
            TransactionType::Dispute => self.after_dispute(m),
            TransactionType::Resolve => self.after_resolve(m),
            TransactionType::Chargeback => self.after_chargeback(m),
        }
    }
}

/// A client account that tracks balances and transaction lifecycle states.
#[derive(Debug, PartialEq)]
pub struct Account {
    /// Unique client identifier.
    pub client_id: ClientId,
    /// Funds available for withdrawal.
    pub available: Amount,
    /// Funds held due to pending disputes.
    pub held: Amount,
    /// Total funds (`available + held`).
    pub total: Amount,
    /// Whether the account is frozen after a chargeback.
    pub locked: bool,
    /// All recorded transactions keyed by ID, with their current state.
    pub transactions: HashMap<TransactionId, (TransactionState, InputMessage)>,
    /// Transaction IDs in the `Normal` state.
    pub normal: HashSet<TransactionId>,
    /// Transaction IDs in the `Disputed` state.
    pub disputes: HashSet<TransactionId>,
    /// Transaction IDs in the `Resolved` state.
    pub resolves: HashSet<TransactionId>,
    /// Transaction IDs in the `Chargeback` state.
    pub chargebacks: HashSet<TransactionId>,
    /// Amounts currently held per disputed transaction.
    pub pending_disputes: HashMap<TransactionId, Amount>,
}

impl View for Account {
    type V = AccountModel;

    open spec fn view(&self) -> AccountModel {
        AccountModel {
            client_id: self.client_id,
            available: self.available@,
            held: self.held@,
            total: self.total@,
            locked: self.locked,
            states: self.transactions@.map_values(
                |e: (TransactionState, InputMessage)| e.0,
            ),
            messages: self.transactions@.map_values(
                |e: (TransactionState, InputMessage)| e.1,
            ),
            pending: self.pending_disputes@.map_values(|a: Amount| a@),
        }
    }
}

impl Account {
    /// Whether each state set holds exactly the transactions in that state.
    pub open spec fn sets_agree(&self) -> bool {
        &&& self.normal@ == ids_in(self@.states, TransactionState::Normal)
        &&& self.disputes@ == ids_in(self@.states, TransactionState::Disputed)
        &&& self.resolves@ == ids_in(self@.states, TransactionState::Resolved)
        &&& self.chargebacks@ == ids_in(self@.states, TransactionState::Chargeback)
    }

    /// The account is well formed: its model keeps the invariant and its
    /// state sets agree with the states of its transactions.
    pub open spec fn wf(&self) -> bool {
        &&& self@.inv()
        &&& self.sets_agree()
    }
}

/// A well-formed account's model keeps the invariant, and each of its four
/// state sets holds exactly the transactions that are in that state, so that
/// every recorded transaction is in exactly one of them.
pub proof fn lemma_account_wf(acc: &Account)
    requires
        acc.wf(),
    ensures
        acc@.inv(),
        acc.normal@ == ids_in(acc@.states, TransactionState::Normal),
        acc.disputes@ == ids_in(acc@.states, TransactionState::Disputed),
        acc.resolves@ == ids_in(acc@.states, TransactionState::Resolved),
        acc.chargebacks@ == ids_in(acc@.states, TransactionState::Chargeback),
{
}

pub(crate) proof fn lemma_pending_sum_remove(p: Map<TransactionId, int>, k: TransactionId)
    requires
        p.dom().finite(),
        p.contains_key(k),
    ensures
        pending_sum(p) == p[k] + pending_sum(p.remove(k)),
    decreases p.dom().len(),
{
    assert(p.dom().len() > 0) by {
        vstd::set_lib::lemma_set_empty_equivalency_len(p.dom());
    }
    let c = p.dom().choose();
    if c != k {
        lemma_pending_sum_remove(p.remove(c), k);
        lemma_pending_sum_remove(p.remove(k), c);
        assert(p.remove(c).remove(k) =~= p.remove(k).remove(c));
    }
}

pub(crate) proof fn lemma_pending_sum_nonneg(p: Map<TransactionId, int>)
    requires
        p.dom().finite(),
        forall|k: TransactionId| #[trigger] p.contains_key(k) ==> p[k] > 0,
    ensures
        pending_sum(p) >= 0,
    decreases p.dom().len(),
{
    if p.dom().len() > 0 {
        let k = p.dom().choose();
        assert(p.contains_key(k)) by {
            vstd::set_lib::lemma_set_empty_equivalency_len(p.dom());
        }
        lemma_pending_sum_nonneg(p.remove(k));
    }
}

pub(crate) proof fn lemma_pending_sum_insert(p: Map<TransactionId, int>, k: TransactionId, v: int)
    requires
        p.dom().finite(),
    ensures
        pending_sum(p.insert(k, v)) == pending_sum(p) - (if p.contains_key(k) {
            p[k]
        } else {
            0
        }) + v,
{
    lemma_pending_sum_remove(p.insert(k, v), k);
    if p.contains_key(k) {
        lemma_pending_sum_remove(p, k);
        assert(p.insert(k, v).remove(k) =~= p.remove(k));
    } else {
        assert(p.insert(k, v).remove(k) =~= p);
    }
}

proof fn lemma_pending_bounds(p: Map<TransactionId, int>, k: TransactionId)
    requires
        p.dom().finite(),
        forall|j: TransactionId| #[trigger] p.contains_key(j) ==> p[j] > 0,
        p.contains_key(k),
    ensures
        0 < p[k] <= pending_sum(p),
{
    lemma_pending_sum_remove(p, k);
    lemma_pending_sum_nonneg(p.remove(k));
}

/// A set of transaction IDs has at most 2^32 elements.
proof fn lemma_id_set_len(s: Set<TransactionId>)
    requires
        s.finite(),
    ensures
        s.len() <= 0x1_0000_0000,
{
    let r = Set::<u32>::new(|i: u32| 0 <= i < u32::MAX);
    <u32 as vstd::set_lib::FiniteRange>::range_properties(0u32, u32::MAX);
    assert(r == <u32 as vstd::set_lib::FiniteRange>::range_set(0u32, u32::MAX));
    let full = r.insert(u32::MAX);
    assert(s.subset_of(full));
    vstd::set_lib::lemma_len_subset(s, full);
}

/// Bounds on the balances of an account that keeps the invariant.
proof fn lemma_balances_bounded(m: AccountModel)
    requires
        m.inv(),
    ensures
        m.held >= 0,
        -balance_bound(m.states.dom().len()) <= m.available <= balance_bound(
            m.states.dom().len(),
        ),
        0 <= m.held <= 2 * balance_bound(m.states.dom().len()),
        balance_bound(m.states.dom().len()) <= 0x8000_0000_0000_0000_0000_0000,
{
    lemma_pending_sum_nonneg(m.pending);
    lemma_id_set_len(m.states.dom());
}

/// The facts shared by deposits and withdrawals once the new transaction is
/// recorded in state `Normal` and the balances have moved.
proof fn lemma_recorded(pre: AccountModel, before: &Account, after: &Account, m: InputMessage)
    requires
        before.wf(),
        pre == before@,
        !pre.states.contains_key(m.transaction_id),
        !pre.locked,
        after.transactions@ == before.transactions@.insert(
            m.transaction_id,
            (TransactionState::Normal, m),
        ),
        after.pending_disputes@ == before.pending_disputes@,
        after.held == before.held,
        after.locked == before.locked,
        after.client_id == before.client_id,
        after.total@ - pre.total == after.available@ - pre.available,
        -0x8000_0000_0000_0000 <= after.available@ - pre.available <= 0x8000_0000_0000_0000,
        after.normal@ == before.normal@.insert(m.transaction_id),
        after.disputes@ == before.disputes@,
        after.resolves@ == before.resolves@,
        after.chargebacks@ == before.chargebacks@,
    ensures
        after.wf(),
        after@ == (AccountModel { available: after.available@, total: after.total@, ..pre.record(m) }),
{
    let k = m.transaction_id;
    let new_states = pre.states.insert(k, TransactionState::Normal);
    assert(after@.states =~= new_states);
    assert(after@.messages =~= pre.messages.insert(k, m));
    assert(after@.pending =~= pre.pending);
    assert(after.normal@ =~= ids_in(new_states, TransactionState::Normal));
    assert(after.disputes@ =~= ids_in(new_states, TransactionState::Disputed));
    assert(after.resolves@ =~= ids_in(new_states, TransactionState::Resolved));
    assert(after.chargebacks@ =~= ids_in(new_states, TransactionState::Chargeback));
    assert(new_states.dom() =~= pre.states.dom().insert(k));
    assert(new_states.dom().len() == pre.states.dom().len() + 1);
    lemma_balances_bounded(pre);
    assert(after@.inv());
}

/// Applying any message whose amount is a scaled `i64` to an account that
/// keeps the invariant yields an account that keeps it: total is available
/// plus held, held is the sum of what is held per disputed transaction,
/// exactly the disputed transactions hold funds, and an account is locked
/// exactly when it has a charged-back transaction.
pub proof fn law_apply_keeps_invariant(m: AccountModel, msg: InputMessage)
    requires
        m.inv(),
        fits_i64(msg.amount@),
    ensures
        m.apply(msg).inv(),
{
    lemma_balances_bounded(m);
    let k = msg.transaction_id;
    let n = m.apply(msg);
    match msg.transaction_type {
        TransactionType::Deposit => {
            if m.deposit_result(msg) is Ok {
                assert(n.states.dom() =~= m.states.dom().insert(k));
                assert(n.messages.dom() =~= n.states.dom());
            }
        },
        TransactionType::Withdrawal => {
            if m.withdrawal_result(msg) is Ok {
                assert(n.states.dom() =~= m.states.dom().insert(k));
                assert(n.messages.dom() =~= n.states.dom());
            }
        },
        TransactionType::Dispute => {
            let d = m.dispute_amount(msg);
            if m.dispute_result(msg) is Ok && d > 0 {
                if m.pending.contains_key(k) {
                    lemma_pending_bounds(m.pending, k);
                }
                lemma_pending_sum_insert(m.pending, k, m.held_for(k) + d);
                assert(n.states.dom() =~= m.states.dom());
            }
        },
        TransactionType::Resolve => {
            let r = m.settle_amount(msg);
            if m.resolve_result(msg) is Ok && r > 0 {
                lemma_pending_bounds(m.pending, k);
                if m.held_for(k) - r > 0 {
                    lemma_pending_sum_insert(m.pending, k, m.held_for(k) - r);
                } else {
                    lemma_pending_sum_remove(m.pending, k);
                }
                assert(n.states.dom() =~= m.states.dom());
            }
        },
        TransactionType::Chargeback => {
            if m.chargeback_result(msg) is Ok {
                lemma_pending_bounds(m.pending, k);
                lemma_pending_sum_remove(m.pending, k);
                assert(n.states.dom() =~= m.states.dom());
                assert(n.states.contains_key(k) && n.states[k] == TransactionState::Chargeback);
            }
        },
    }
}

/// Balances never go negative: an account whose available balance is not
/// negative keeps available, held and total balances that are not negative
/// under every message, whatever its type, outcome or amount.
pub proof fn law_balances_stay_non_negative(m: AccountModel, msg: InputMessage)
    requires
        m.inv(),
        m.available >= 0,
        fits_i64(msg.amount@),
    ensures
        m.apply(msg).available >= 0,
        m.apply(msg).held >= 0,
        m.apply(msg).total >= 0,
{
    law_apply_keeps_invariant(m, msg);
    lemma_balances_bounded(m.apply(msg));
    lemma_balances_bounded(m);
}

/// A locked account ignores every message: it answers `AccountLocked` and
/// stays exactly as it was, so it stays locked for good.
pub proof fn law_locked_account_is_frozen(m: AccountModel, msg: InputMessage)
    requires
        m.locked,
    ensures
        m.apply(msg) == m,
        m.apply_result(msg) == Err::<(), TransactionError>(TransactionError::AccountLocked),
{
}

/// A chargeback that is accepted locks the account whatever its amount, takes
/// exactly the charged-back amount (zero for a request that is not positive)
/// off the total, releases everything held for the transaction, and leaves
/// the transaction charged back.
pub proof fn law_chargeback_locks(m: AccountModel, msg: InputMessage)
    requires
        m.inv(),
        msg.transaction_type == TransactionType::Chargeback,
        m.apply_result(msg) is Ok,
    ensures
        m.apply(msg).locked,
        m.apply(msg).total == m.total - m.charged_amount(msg),
        0 <= m.charged_amount(msg) <= m.held_for(msg.transaction_id),
        m.apply(msg).held == m.held - m.held_for(msg.transaction_id),
        !m.apply(msg).pending.contains_key(msg.transaction_id),
        m.apply(msg).states[msg.transaction_id] == TransactionState::Chargeback,
{
}

/// A deposit or a withdrawal, whatever its amount, is rejected with
/// `AccountLocked` on a locked account, then with `DuplicateTransaction` when
/// its ID is already recorded, then with `AmountNegative` when its amount is
/// negative, then (a withdrawal only) with `InsufficientBalance` when it asks
/// for more than is available; otherwise it is accepted. A rejected one
/// changes nothing; an accepted one moves its amount into (deposit) or out of
/// (withdrawal) available and total, and records the transaction in state
/// `Normal`.
pub proof fn law_deposit_and_withdrawal_outcomes(m: AccountModel, msg: InputMessage)
    requires
        msg.transaction_type == TransactionType::Deposit || msg.transaction_type
            == TransactionType::Withdrawal,
    ensures
        m.locked ==> m.apply_result(msg) == Err::<(), TransactionError>(
            TransactionError::AccountLocked,
        ),
        !m.locked && m.states.contains_key(msg.transaction_id) ==> m.apply_result(msg) == Err::<
            (),
            TransactionError,
        >(TransactionError::DuplicateTransaction),
        !m.locked && !m.states.contains_key(msg.transaction_id) && msg.amount@ < 0
            ==> m.apply_result(msg) == Err::<(), TransactionError>(
            TransactionError::AmountNegative,
        ),
        msg.transaction_type == TransactionType::Withdrawal && !m.locked && !m.states.contains_key(
            msg.transaction_id,
        ) && msg.amount@ >= 0 && m.available < msg.amount@ ==> m.apply_result(msg) == Err::<
            (),
            TransactionError,
        >(TransactionError::InsufficientBalance),
        m.apply_result(msg) is Ok <==> (!m.locked && !m.states.contains_key(msg.transaction_id)
            && msg.amount@ >= 0 && (msg.transaction_type == TransactionType::Deposit
            || msg.amount@ <= m.available)),
        m.apply_result(msg) is Err ==> m.apply(msg) == m,
        m.apply_result(msg) is Ok && msg.transaction_type == TransactionType::Deposit ==> m.apply(
            msg,
        ) == (AccountModel {
            available: m.available + msg.amount@,
            total: m.total + msg.amount@,
            ..m.record(msg)
        }),
        m.apply_result(msg) is Ok && msg.transaction_type == TransactionType::Withdrawal
            ==> m.apply(msg) == (AccountModel {
            available: m.available - msg.amount@,
            total: m.total - msg.amount@,
            ..m.record(msg)
        }),
{
}

/// A dispute is accepted exactly when the account is unlocked and the
/// transaction is recorded and not charged back, whether it recorded a
/// deposit or a withdrawal. It moves the requested amount, capped at what is
/// available, from available to held and adds it to what is held for the
/// transaction, which becomes `Disputed`; a dispute that would move nothing
/// changes nothing, and the total never changes.
pub proof fn law_dispute_moves_requested_amount(m: AccountModel, msg: InputMessage)
    requires
        m.inv(),
        msg.transaction_type == TransactionType::Dispute,
    ensures
        m.apply_result(msg) is Ok <==> (!m.locked && m.states.contains_key(msg.transaction_id)
            && m.states[msg.transaction_id] != TransactionState::Chargeback),
        m.apply(msg).total == m.total,
        ({
            let k = msg.transaction_id;
            let d = if msg.amount@ <= m.available {
                msg.amount@
            } else {
                m.available
            };
            &&& (m.apply_result(msg) is Ok && d > 0) ==> {
                &&& m.apply(msg).available == m.available - d
                &&& m.apply(msg).held == m.held + d
                &&& m.apply(msg).pending.contains_key(k)
                &&& m.apply(msg).pending[k] == (if m.pending.contains_key(k) {
                    m.pending[k]
                } else {
                    0
                }) + d
                &&& m.apply(msg).pending.remove(k) == m.pending.remove(k)
                &&& m.apply(msg).states == m.states.insert(k, TransactionState::Disputed)
            }
            &&& (m.apply_result(msg) is Err || d <= 0) ==> m.apply(msg) == m
        }),
{
    let k = msg.transaction_id;
    if m.apply_result(msg) is Ok && m.dispute_amount(msg) > 0 {
        assert(m.apply(msg).pending.remove(k) =~= m.pending.remove(k));
    }
}

/// A resolve is accepted exactly when the account is unlocked and the
/// transaction is disputed. It releases the requested amount, capped at what
/// is held for the transaction, from held back to available, whatever other
/// transactions are disputed: a request below what is held leaves the rest
/// held and the transaction `Disputed`; a request of at least what is held
/// releases all of it and the transaction becomes `Resolved`; a request that
/// is not positive changes nothing. The total never changes.
pub proof fn law_resolve_releases_requested_amount(m: AccountModel, msg: InputMessage)
    requires
        m.inv(),
        msg.transaction_type == TransactionType::Resolve,
    ensures
        m.apply_result(msg) is Ok <==> (!m.locked && m.states.contains_key(msg.transaction_id)
            && m.states[msg.transaction_id] == TransactionState::Disputed),
        m.apply(msg).total == m.total,
        ({
            let k = msg.transaction_id;
            let r = msg.amount@;
            &&& (m.apply_result(msg) is Ok && 0 < r < m.pending[k]) ==> {
                &&& m.apply(msg).held == m.held - r
                &&& m.apply(msg).available == m.available + r
                &&& m.apply(msg).pending == m.pending.insert(k, m.pending[k] - r)
                &&& m.apply(msg).states == m.states
            }
            &&& (m.apply_result(msg) is Ok && r >= m.pending[k]) ==> {
                &&& m.apply(msg).held == m.held - m.pending[k]
                &&& m.apply(msg).available == m.available + m.pending[k]
                &&& m.apply(msg).pending == m.pending.remove(k)
                &&& m.apply(msg).states == m.states.insert(k, TransactionState::Resolved)
            }
            &&& (m.apply_result(msg) is Err || r <= 0) ==> m.apply(msg) == m
        }),
{
}

/// A chargeback is accepted exactly when the account is unlocked and the
/// transaction is disputed. Whatever the amount, it locks the account,
/// releases everything held for the transaction and marks it `Chargeback`;
/// it takes the requested amount, capped at what is held for the transaction,
/// off the total (nothing for a request that is not positive, all that is
/// held for a request of at least that much), and the rest of what was held
/// returns to available.
pub proof fn law_chargeback_takes_requested_amount(m: AccountModel, msg: InputMessage)
    requires
        m.inv(),
        msg.transaction_type == TransactionType::Chargeback,
    ensures
        m.apply_result(msg) is Ok <==> (!m.locked && m.states.contains_key(msg.transaction_id)
            && m.states[msg.transaction_id] == TransactionState::Disputed),
        m.apply_result(msg) is Err ==> m.apply(msg) == m,
        ({
            let k = msg.transaction_id;
            let h = m.pending[k];
            let r = msg.amount@;
            let taken = if r <= 0 {
                0
            } else if r < h {
                r
            } else {
                h
            };
            m.apply_result(msg) is Ok ==> {
                &&& m.apply(msg).total == m.total - taken
                &&& m.apply(msg).held == m.held - h
                &&& m.apply(msg).available == m.available + h - taken
                &&& m.apply(msg).locked
                &&& m.apply(msg).pending == m.pending.remove(k)
                &&& m.apply(msg).states == m.states.insert(k, TransactionState::Chargeback)
                &&& r >= h ==> m.apply(msg).total == m.total - h
            }
        }),
{
}

/// The lifecycle of a transaction: nothing moves back to `Normal`,
/// `Chargeback` is terminal, a transaction can be disputed from `Normal`,
/// `Disputed` (disputes accumulate) and `Resolved` (re-dispute), and only a
/// disputed transaction can be resolved or charged back.
pub proof fn law_transaction_lifecycle(from: TransactionState, to: TransactionState)
    ensures
        to == TransactionState::Normal ==> transition_check(from, to) is Err,
        from == TransactionState::Chargeback ==> transition_check(from, to) is Err,
        (from != TransactionState::Chargeback && to == TransactionState::Disputed)
            ==> transition_check(from, to) is Ok,
        (to == TransactionState::Resolved || to == TransactionState::Chargeback) ==> (
        transition_check(from, to) is Ok <==> from == TransactionState::Disputed),
{
}

/// Disputes and resolves only move funds between available and held: the
/// total stays as it was.
pub proof fn law_dispute_and_resolve_keep_total(m: AccountModel, msg: InputMessage)
    requires
        msg.transaction_type == TransactionType::Dispute || msg.transaction_type
            == TransactionType::Resolve,
    ensures
        m.apply(msg).total == m.total,
        m.apply(msg).available + m.apply(msg).held == m.available + m.held,
{
}

/// Disputing an amount that is available and then resolving the same
/// amount gives back exactly the balances from before the dispute, and the
/// transaction ends up `Resolved`.
pub proof fn law_dispute_then_resolve_restores_balances(
    m: AccountModel,
    dispute: InputMessage,
    resolve: InputMessage,
)
    requires
        m.inv(),
        dispute.transaction_type == TransactionType::Dispute,
        resolve.transaction_type == TransactionType::Resolve,
        dispute.transaction_id == resolve.transaction_id,
        m.apply_result(dispute) is Ok,
        !m.pending.contains_key(dispute.transaction_id),
        0 < dispute.amount@ <= m.available,
        resolve.amount@ == dispute.amount@,
    ensures
        m.apply(dispute).apply(resolve).available == m.available,
        m.apply(dispute).apply(resolve).held == m.held,
        m.apply(dispute).apply(resolve).total == m.total,
        m.apply(dispute).apply_result(resolve) is Ok,
        m.apply(dispute).apply(resolve).states[dispute.transaction_id]
            == TransactionState::Resolved,
{
}

/// A deposit or withdrawal that reuses a recorded transaction ID is refused
/// (as `DuplicateTransaction`, unless the account is locked) and changes
/// nothing.
pub proof fn law_duplicate_ids_rejected(m: AccountModel, msg: InputMessage)
    requires
        msg.transaction_type == TransactionType::Deposit || msg.transaction_type
            == TransactionType::Withdrawal,
        m.states.contains_key(msg.transaction_id),
    ensures
        m.apply(msg) == m,
        !m.locked ==> m.apply_result(msg) == Err::<(), TransactionError>(
            TransactionError::DuplicateTransaction,
        ),
{
}

/// A dispute, resolve or chargeback that names an unknown transaction is
/// refused (as `InvalidTransaction`, unless the account is locked) and
/// changes nothing.
pub proof fn law_unknown_transaction_rejected(m: AccountModel, msg: InputMessage)
    requires
        msg.transaction_type != TransactionType::Deposit,
        msg.transaction_type != TransactionType::Withdrawal,
        !m.states.contains_key(msg.transaction_id),
    ensures
        m.apply(msg) == m,
        !m.locked ==> m.apply_result(msg) == Err::<(), TransactionError>(
            TransactionError::InvalidTransaction,
        ),
{
}

/// A withdrawal never takes more than is available: it succeeds exactly
/// when the account is unlocked, the ID is new and the amount is neither
/// negative nor more than the available balance.
pub proof fn law_withdrawal_never_overdraws(m: AccountModel, msg: InputMessage)
    requires
        msg.transaction_type == TransactionType::Withdrawal,
    ensures
        m.apply_result(msg) is Ok <==> (!m.locked && !m.states.contains_key(msg.transaction_id)
            && 0 <= msg.amount@ <= m.available),
        m.apply_result(msg) is Ok ==> m.apply(msg).available == m.available - msg.amount@,
{
}

/// A resolve that asks for at least what is held for its transaction
/// releases all of it back to available, and the transaction becomes
/// `Resolved`, however many disputes accumulated the held amount.
pub proof fn law_full_resolve_releases_all(m: AccountModel, msg: InputMessage)
    requires
        msg.transaction_type == TransactionType::Resolve,
        m.apply_result(msg) is Ok,
        msg.amount@ >= m.pending[msg.transaction_id],
        m.pending[msg.transaction_id] > 0,
    ensures
        m.apply(msg).held == m.held - m.pending[msg.transaction_id],
        m.apply(msg).available == m.available + m.pending[msg.transaction_id],
        !m.apply(msg).pending.contains_key(msg.transaction_id),
        m.apply(msg).states[msg.transaction_id] == TransactionState::Resolved,
{
}

/// The account after applying the messages `ms` in order.
pub open spec fn apply_all(m: AccountModel, ms: Seq<InputMessage>) -> AccountModel
    decreases ms.len(),
{
    if ms.len() == 0 {
        m
    } else {
        apply_all(m, ms.drop_last()).apply(ms.last())
    }
}

/// The sum of the amounts of the messages `ms`.
pub open spec fn amount_sum(ms: Seq<InputMessage>) -> int
    decreases ms.len(),
{
    if ms.len() == 0 {
        0
    } else {
        amount_sum(ms.drop_last()) + ms.last().amount@
    }
}

/// On an unlocked account, deposits with new, distinct transaction IDs and
/// amounts that are not negative all succeed: available and total grow by exactly the sum of their amounts and
/// nothing is held.
pub proof fn law_deposits_add_up(m: AccountModel, ms: Seq<InputMessage>)
    requires
        !m.locked,
        forall|i: int|
            0 <= i < ms.len() ==> (#[trigger] ms[i]).transaction_type == TransactionType::Deposit
                && !m.states.contains_key(ms[i].transaction_id) && ms[i].amount@ >= 0,
        forall|i: int, j: int|
            0 <= i < j < ms.len() ==> (#[trigger] ms[i]).transaction_id
                != (#[trigger] ms[j]).transaction_id,
    ensures
        apply_all(m, ms).available == m.available + amount_sum(ms),
        apply_all(m, ms).total == m.total + amount_sum(ms),
        apply_all(m, ms).held == m.held,
        apply_all(m, ms).pending == m.pending,
        !apply_all(m, ms).locked,
        forall|i: int|
            0 <= i < ms.len() ==> apply_all(m, ms).states.contains_key(
                (#[trigger] ms[i]).transaction_id,
            ),
        forall|t: TransactionId| #[trigger]
            apply_all(m, ms).states.contains_key(t) ==> m.states.contains_key(t) || exists|i: int|
                0 <= i < ms.len() && (#[trigger] ms[i]).transaction_id == t,
    decreases ms.len(),
{
    if ms.len() > 0 {
        let prefix = ms.drop_last();
        law_deposits_add_up(m, prefix);
        let before = apply_all(m, prefix);
        let last = ms.last();
        assert(last == ms[ms.len() - 1]);
        assert(!before.states.contains_key(last.transaction_id)) by {
            if before.states.contains_key(last.transaction_id) {
                if !m.states.contains_key(last.transaction_id) {
                    let i = choose|i: int|
                        0 <= i < prefix.len() && (#[trigger] prefix[i]).transaction_id
                            == last.transaction_id;
                    assert(ms[i] == prefix[i]);
                }
            }
        }
        assert forall|i: int| 0 <= i < ms.len() implies apply_all(m, ms).states.contains_key(
            (#[trigger] ms[i]).transaction_id,
        ) by {
            if i < prefix.len() {
                assert(ms[i] == prefix[i]);
            }
        }
        assert forall|t: TransactionId| #[trigger]
            apply_all(m, ms).states.contains_key(t) implies m.states.contains_key(t) || exists|
            i: int,
        | 0 <= i < ms.len() && (#[trigger] ms[i]).transaction_id == t by {
            if t != last.transaction_id && !m.states.contains_key(t) {
                let i = choose|i: int|
                    0 <= i < prefix.len() && (#[trigger] prefix[i]).transaction_id == t;
                assert(ms[i] == prefix[i]);
            }
        }
    }
}

/// Describes a validated state transition to be applied to an account.
pub struct ExecuteTransition {
    /// State the transaction is moving from.
    pub from: TransactionState,
    /// State the transaction is moving to.
    pub to: TransactionState,
}

impl TransactionState {
    /// Validates whether a state transition is allowed, returning the transition
    /// descriptor on success or an error explaining why it was rejected.
    pub fn can_transition(self, target: TransactionState) -> (r: Result<
        ExecuteTransition,
        TransactionError,
    >)
        ensures
            match r {
                Ok(t) => transition_check(self, target) is Ok && t.from == self && t.to == target,
                Err(e) => transition_check(self, target) == Err::<(), TransactionError>(e),
            },
    {
        match (self, target) {
            (_, TransactionState::Normal) => Err(TransactionError::CannotRevertToNormal),
            (TransactionState::Chargeback, _) => Err(TransactionError::AccountLocked),
            (
                TransactionState::Normal | TransactionState::Disputed | TransactionState::Resolved,
                TransactionState::Disputed,
            ) => Ok(ExecuteTransition { from: self, to: target }),
            (
                TransactionState::Disputed,
                TransactionState::Resolved | TransactionState::Chargeback,
            ) => Ok(ExecuteTransition { from: self, to: target }),
            (
                TransactionState::Normal,
                TransactionState::Resolved | TransactionState::Chargeback,
            ) => Err(TransactionError::TransactionNotDisputed),
            (
                TransactionState::Resolved,
                TransactionState::Resolved | TransactionState::Chargeback,
            ) => Err(TransactionError::TransactionNotDisputed),
        }
    }
}

impl ExecuteTransition {
    /// Applies the state transition: removes the transaction from its old state set,
    /// inserts it into the new one, and updates the transactions map.
    pub(crate) fn execute(self, acc: &mut Account, key: TransactionId)
        requires
            old(acc).sets_agree(),
            old(acc)@.states.contains_key(key),
            old(acc)@.states[key] == self.from,
        ensures
            final(acc).sets_agree(),
            final(acc)@ == (AccountModel {
                states: old(acc)@.states.insert(key, self.to),
                ..old(acc)@
            }),
    {
        match self.from {
            TransactionState::Normal => {
                acc.normal.remove(&key);
            },
            TransactionState::Disputed => {
                acc.disputes.remove(&key);
            },
            TransactionState::Resolved => {
                acc.resolves.remove(&key);
            },
            TransactionState::Chargeback => {
                acc.chargebacks.remove(&key);
            },
        }
        match self.to {
            TransactionState::Normal => {
                acc.normal.insert(key);
            },
            TransactionState::Disputed => {
                acc.disputes.insert(key);
            },
            TransactionState::Resolved => {
                acc.resolves.insert(key);
            },
            TransactionState::Chargeback => {
                acc.chargebacks.insert(key);
            },
        }
        let recorded = match acc.transactions.get(&key) {
            Some(entry) => Some(entry.1),
            None => None,
        };
        if let Some(m) = recorded {
            acc.transactions.insert(key, (self.to, m));
        }
        proof {
            let new_states = old(acc)@.states.insert(key, self.to);
            assert(acc@.states =~= new_states);
            assert(acc@.messages =~= old(acc)@.messages);
            assert(acc.normal@ =~= ids_in(new_states, TransactionState::Normal));
            assert(acc.disputes@ =~= ids_in(new_states, TransactionState::Disputed));
            assert(acc.resolves@ =~= ids_in(new_states, TransactionState::Resolved));
            assert(acc.chargebacks@ =~= ids_in(new_states, TransactionState::Chargeback));
        }
    }
}


impl Default for Account {
    fn default() -> (r: Self)
        ensures
            r.wf(),
            r@ == AccountModel::fresh(0),
    {
        Account::new(0)
    }
}

impl Account {
    /// Creates a new account with zero balances for the given client.
    pub fn new(client_id: ClientId) -> (r: Self)
        ensures
            r.wf(),
            r@ == AccountModel::fresh(client_id),
    {
        let r = Account {
            client_id,
            available: Amount::zero(),
            held: Amount::zero(),
            total: Amount::zero(),
            locked: false,
            transactions: HashMap::new(),
            normal: HashSet::new(),
            disputes: HashSet::new(),
            resolves: HashSet::new(),
            chargebacks: HashSet::new(),
            pending_disputes: HashMap::new(),
        };
        proof {
            assert(r@.states =~= Map::empty());
            assert(r@.messages =~= Map::empty());
            assert(r@.pending =~= Map::empty());
            assert(pending_sum(r@.pending) == 0);
            assert(r.normal@ =~= ids_in(r@.states, TransactionState::Normal));
            assert(r.disputes@ =~= ids_in(r@.states, TransactionState::Disputed));
            assert(r.resolves@ =~= ids_in(r@.states, TransactionState::Resolved));
            assert(r.chargebacks@ =~= ids_in(r@.states, TransactionState::Chargeback));
        }
        r
    }

    /// Looks up a transaction and validates whether it can transition to `target`.
    fn do_transition(&self, tx_id: TransactionId, target: TransactionState) -> (r: Result<
        ExecuteTransition,
        TransactionError,
    >)
        ensures
            match r {
                Ok(t) => self@.lookup_transition(tx_id, target) is Ok && t.from
                    == self@.states[tx_id] && t.to == target,
                Err(e) => self@.lookup_transition(tx_id, target) == Err::<(), TransactionError>(e),
            },
    {
        match self.transactions.get(&tx_id) {
            None => Err(TransactionError::InvalidTransaction),
            Some(entry) => entry.0.can_transition(target),
        }
    }

    /// Processes a deposit: adds funds to available and total.
    /// Rejects operations on locked accounts, duplicate transaction IDs and
    /// negative amounts.
    pub fn process_deposit(&mut self, msg: &InputMessage) -> (r: Result<(), TransactionError>)
        requires
            old(self).wf(),
            fits_i64(msg.amount@),
        ensures
            final(self).wf(),
            final(self)@ == old(self)@.after_deposit(*msg),
            r == old(self)@.deposit_result(*msg),
    {
        if self.locked {
            return Err(TransactionError::AccountLocked);
        }
        if self.transactions.contains_key(&msg.transaction_id) {
            return Err(TransactionError::DuplicateTransaction);
        }
        if msg.amount.is_less_than(&Amount::zero()) {
            return Err(TransactionError::AmountNegative);
        }
        proof {
            lemma_balances_bounded(self@);
        }
        let ghost pre = self@;
        self.transactions.insert(msg.transaction_id, (TransactionState::Normal, *msg));
        self.normal.insert(msg.transaction_id);
        self.available = self.available.plus(&msg.amount);
        self.total = self.total.plus(&msg.amount);
        proof {
            lemma_recorded(pre, old(self), self, *msg);
        }
        Ok(())
    }

    /// Processes a withdrawal: subtracts funds from available and total.
    /// Rejects if the account is locked, the transaction ID is a duplicate, the
    /// amount is negative or exceeds the available balance.
    pub fn process_withdrawal(&mut self, msg: &InputMessage) -> (r: Result<(), TransactionError>)
        requires
            old(self).wf(),
            fits_i64(msg.amount@),
        ensures
            final(self).wf(),
            final(self)@ == old(self)@.after_withdrawal(*msg),
            r == old(self)@.withdrawal_result(*msg),
    {
        if self.locked {
            return Err(TransactionError::AccountLocked);
        }
        if self.transactions.contains_key(&msg.transaction_id) {
            return Err(TransactionError::DuplicateTransaction);
        }
        if msg.amount.is_less_than(&Amount::zero()) {
            return Err(TransactionError::AmountNegative);
        }
        if self.available.is_less_than(&msg.amount) {
            return Err(TransactionError::InsufficientBalance);
        }
        proof {
            lemma_balances_bounded(self@);
        }
        let ghost pre = self@;
        self.transactions.insert(msg.transaction_id, (TransactionState::Normal, *msg));
        self.normal.insert(msg.transaction_id);
        self.available = self.available.minus(&msg.amount);
        self.total = self.total.minus(&msg.amount);
        proof {
            lemma_recorded(pre, old(self), self, *msg);
        }
        Ok(())
    }

    /// Processes a dispute: moves funds from available to held (capped at available balance).
    /// A zero-amount dispute is a no-op. Cumulative disputes on the same transaction are allowed.
    pub fn process_dispute(&mut self, msg: &InputMessage) -> (r: Result<(), TransactionError>)
        requires
            old(self).wf(),
        ensures
            final(self).wf(),
            final(self)@ == old(self)@.after_dispute(*msg),
            r == old(self)@.dispute_result(*msg),
    {
        if self.locked {
            return Err(TransactionError::AccountLocked);
        }
        let key = msg.transaction_id;
        let transition = match self.do_transition(key, TransactionState::Disputed) {
            Ok(t) => t,
            Err(e) => return Err(e),
        };
        let disputed_amount = if msg.amount.is_at_most(&self.available) {
            msg.amount
        } else {
            self.available
        };
        if disputed_amount.is_positive() {
            let ghost pre = self@;
            proof {
                lemma_balances_bounded(pre);
            }
            let prev = match self.pending_disputes.get(&key) {
                Some(a) => *a,
                None => Amount::zero(),
            };
            assert(prev@ == pre.held_for(key));
            proof {
                if pre.pending.contains_key(key) {
                    lemma_pending_bounds(pre.pending, key);
                }
            }
            self.available = self.available.minus(&disputed_amount);
            self.held = self.held.plus(&disputed_amount);
            let new_pending = prev.plus(&disputed_amount);
            self.pending_disputes.insert(key, new_pending);
            proof {
                lemma_pending_sum_insert(pre.pending, key, new_pending@);
                assert(self@.pending =~= pre.pending.insert(key, new_pending@));
                assert(self@.states =~= pre.states);
                assert(self@.messages =~= pre.messages);
            }
            transition.execute(self, key);
            proof {
                assert(self@.states.dom() =~= pre.states.dom());
                assert(self@ == pre.after_dispute(*msg));
                assert(self@.inv());
            }
        }
        Ok(())
    }

    /// Processes a resolve: returns held funds back to available.
    /// A partial resolve keeps the transaction in Disputed state with the remaining held amount.
    pub fn process_resolve(&mut self, msg: &InputMessage) -> (r: Result<(), TransactionError>)
        requires
            old(self).wf(),
        ensures
            final(self).wf(),
            final(self)@ == old(self)@.after_resolve(*msg),
            r == old(self)@.resolve_result(*msg),
    {
        if self.locked {
            return Err(TransactionError::AccountLocked);
        }
        let key = msg.transaction_id;
        let transition = match self.do_transition(key, TransactionState::Resolved) {
            Ok(t) => t,
            Err(e) => return Err(e),
        };
        let disputed = match self.pending_disputes.get(&key) {
            Some(a) => *a,
            None => return Err(TransactionError::TransactionNotDisputed),
        };
        let resolve_amount = if msg.amount.is_less_than(&disputed) {
            msg.amount
        } else {
            disputed
        };
        if resolve_amount.is_positive() {
            let ghost pre = self@;
            proof {
                lemma_balances_bounded(pre);
                lemma_pending_bounds(pre.pending, key);
            }
            self.held = self.held.minus(&resolve_amount);
            self.available = self.available.plus(&resolve_amount);
            let remaining = disputed.minus(&resolve_amount);
            if remaining.is_positive() {
                self.pending_disputes.insert(key, remaining);
                proof {
                    lemma_pending_sum_insert(pre.pending, key, remaining@);
                    assert(self@.pending =~= pre.pending.insert(key, remaining@));
                    assert(self@.states =~= pre.states);
                    assert(self@.messages =~= pre.messages);
                    assert(self@ == pre.after_resolve(*msg));
                    assert(self@.inv());
                }
            } else {
                self.pending_disputes.remove(&key);
                proof {
                    lemma_pending_sum_remove(pre.pending, key);
                    assert(self@.pending =~= pre.pending.remove(key));
                    assert(self@.states =~= pre.states);
                    assert(self@.messages =~= pre.messages);
                }
                transition.execute(self, key);
                proof {
                    assert(self@.states.dom() =~= pre.states.dom());
                    assert(self@ == pre.after_resolve(*msg));
                    assert(self@.inv());
                }
            }
        }
        Ok(())
    }

    /// Processes a chargeback: locks the account whatever the amount, takes the
    /// charged-back amount off total, and returns any remaining disputed
    /// amount to available.
    pub fn process_chargeback(&mut self, msg: &InputMessage) -> (r: Result<(), TransactionError>)
        requires
            old(self).wf(),
        ensures
            final(self).wf(),
            final(self)@ == old(self)@.after_chargeback(*msg),
            r == old(self)@.chargeback_result(*msg),
    {
        if self.locked {
            return Err(TransactionError::AccountLocked);
        }
        let key = msg.transaction_id;
        let transition = match self.do_transition(key, TransactionState::Chargeback) {
            Ok(t) => t,
            Err(e) => return Err(e),
        };
        let disputed = match self.pending_disputes.get(&key) {
            Some(a) => *a,
            None => return Err(TransactionError::TransactionNotDisputed),
        };
        let capped = if msg.amount.is_less_than(&disputed) {
            msg.amount
        } else {
            disputed
        };
        let chargeback_amount = if capped.is_positive() {
            capped
        } else {
            Amount::zero()
        };
        let ghost pre = self@;
        proof {
            lemma_balances_bounded(pre);
            lemma_pending_bounds(pre.pending, key);
        }
        let remaining_disputed = disputed.minus(&chargeback_amount);
        self.held = self.held.minus(&disputed);
        self.total = self.total.minus(&chargeback_amount);
        self.available = self.available.plus(&remaining_disputed);
        self.locked = true;
        self.pending_disputes.remove(&key);
        proof {
            lemma_pending_sum_remove(pre.pending, key);
            assert(self@.pending =~= pre.pending.remove(key));
            assert(self@.states =~= pre.states);
            assert(self@.messages =~= pre.messages);
        }
        transition.execute(self, key);
        proof {
            assert(self@.states.dom() =~= pre.states.dom());
            assert(self@.states.contains_key(key));
            assert(self@.states[key] == TransactionState::Chargeback);
            assert(self@ == pre.after_chargeback(*msg));
            assert(self@.inv());
        }
        Ok(())
    }
}

} // verus!
