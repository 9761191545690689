//! Transaction processing: a ledger of accounts fed in chronological batches.
pub mod accounts;
pub mod config;
pub mod error;
pub mod pending_transaction;

use vstd::prelude::*;
use dashmap::DashMap;
use crate::domain::account::{pending_sum, Account, AccountModel};
use crate::domain::amount::fits_i64;
use crate::domain::transaction::{ClientId, TransactionId, TransactionType};
use crate::message::{account_record, header_record, record_text, InputMessage, OutputMessage};
use crate::text::decimal_digits;
use crate::service::accounts::{
    accounts_get, accounts_insert, accounts_iter, accounts_len, accounts_new, accounts_remove,
    dashmap_accounts,
};
use crate::service::config::ServiceConfig;
use crate::service::error::TransactionError;
use crate::service::pending_transaction::{
    messages_of, oldest_index, processing_order, take_oldest, PendingTransaction,
};

verus! {

/// The outcome of one processed transaction: the handle to report it on,
/// the client, the transaction ID, the transaction type and the result.
pub type Outcome<C> = (C, ClientId, TransactionId, TransactionType, Result<(), TransactionError>);

/// The account of client `c` in `ledger`, or a fresh one if it has none yet.
pub open spec fn account_in(ledger: Map<ClientId, AccountModel>, c: ClientId) -> AccountModel {
    if ledger.contains_key(c) {
        ledger[c]
    } else {
        AccountModel::fresh(c)
    }
}

/// The ledger after applying `m` to the account of its client (which is
/// created if it does not exist, whatever the outcome).
pub open spec fn ledger_step(ledger: Map<ClientId, AccountModel>, m: InputMessage) -> Map<
    ClientId,
    AccountModel,
> {
    ledger.insert(m.client_id, account_in(ledger, m.client_id).apply(m))
}

/// The outcome of applying `m` to `ledger`.
pub open spec fn ledger_step_result(ledger: Map<ClientId, AccountModel>, m: InputMessage) -> Result<
    (),
    TransactionError,
> {
    account_in(ledger, m.client_id).apply_result(m)
}

/// The ledger after applying the messages `ms` in order.
pub open spec fn ledger_run(ledger: Map<ClientId, AccountModel>, ms: Seq<InputMessage>) -> Map<
    ClientId,
    AccountModel,
>
    decreases ms.len(),
{
    if ms.len() == 0 {
        ledger
    } else {
        ledger_step(ledger_run(ledger, ms.drop_last()), ms.last())
    }
}

/// The outcomes of applying the messages `ms` in order.
pub open spec fn ledger_run_results(ledger: Map<ClientId, AccountModel>, ms: Seq<InputMessage>) -> Seq<
    Result<(), TransactionError>,
>
    decreases ms.len(),
{
    if ms.len() == 0 {
        Seq::empty()
    } else {
        ledger_run_results(ledger, ms.drop_last()).push(
            ledger_step_result(ledger_run(ledger, ms.drop_last()), ms.last()),
        )
    }
}

/// Whether every buffered amount is a scaled `i64`, as every parsed amount is.
pub open spec fn amounts_fit<C>(s: Seq<PendingTransaction<C>>) -> bool {
    forall|i: int| 0 <= i < s.len() ==> fits_i64(#[trigger] s[i].message.amount@)
}

/// What processing the batch `batch` does: the ledger goes from `before` to
/// the result of applying the batch's messages in processing order, and the
/// outcomes report, in that order, each transaction's callback, client,
/// transaction ID and result.
pub open spec fn batch_processed<C>(
    before: Map<ClientId, AccountModel>,
    after: Map<ClientId, AccountModel>,
    batch: Seq<PendingTransaction<C>>,
    outcomes: Seq<Outcome<C>>,
) -> bool {
    let order = processing_order(batch);
    let ms = messages_of(order);
    let results = ledger_run_results(before, ms);
    &&& after == ledger_run(before, ms)
    &&& outcomes.len() == batch.len()
    &&& forall|i: int|
        0 <= i < outcomes.len() ==> (#[trigger] outcomes[i]).0 == order[i].callback
            && outcomes[i].1 == order[i].message.client_id && outcomes[i].2
            == order[i].message.transaction_id && outcomes[i].3
            == order[i].message.transaction_type && outcomes[i].4 == results[i]
}

/// Whether `rec` is the output record of some account of `ledger`.
pub open spec fn is_row_of(ledger: Map<ClientId, AccountModel>, rec: Seq<Seq<char>>) -> bool {
    exists|c: ClientId| ledger.contains_key(c) && rec == account_record(#[trigger] ledger[c])
}

/// Messages sent to the service's event loop.
pub enum ServiceMessage<C, D> {
    /// A transaction to be buffered and processed, with the handle on which
    /// its outcome is reported.
    Incoming(Box<InputMessage>, C),
    /// Signal that all transactions have been loaded: the buffer is flushed
    /// and the handle is acknowledged.
    TransactionBatchCompletion(D),
}

/// The core transaction processing engine.
///
/// Buffers incoming transactions, and flushes them in batches, oldest first,
/// to per-client accounts.
pub struct Service {
    /// Batch size and other tuning parameters.
    config: ServiceConfig,
    /// Concurrent map of client accounts.
    accounts: DashMap<ClientId, Account>,
}

impl Service {
    /// The accounts of the service, by client.
    pub closed spec fn ledger(&self) -> Map<ClientId, AccountModel> {
        dashmap_accounts(self.accounts).map_values(|a: Account| a@)
    }

    /// The number of buffered messages that triggers a flush.
    pub closed spec fn batch_size(&self) -> usize {
        self.config.batch_size
    }

    /// Every account is well formed and filed under its own client.
    pub closed spec fn wf(&self) -> bool {
        &&& dashmap_accounts(self.accounts).dom().finite()
        &&& forall|c: ClientId| #[trigger]
            dashmap_accounts(self.accounts).contains_key(c) ==> dashmap_accounts(
                self.accounts,
            )[c].wf() && dashmap_accounts(self.accounts)[c].client_id == c
    }

    /// Creates a new service with no accounts.
    pub fn new(config: ServiceConfig) -> (r: Self)
        ensures
            r.wf(),
            r.ledger() == Map::<ClientId, AccountModel>::empty(),
            r.batch_size() == config.batch_size,
    {
        let r = Service { config, accounts: accounts_new() };
        assert(r.ledger() =~= Map::<ClientId, AccountModel>::empty());
        r
    }

    /// Applies one message to the account of its client, creating the account
    /// if the client has none yet.
    pub fn apply_message(&mut self, msg: &InputMessage) -> (r: Result<(), TransactionError>)
        requires
            old(self).wf(),
            fits_i64(msg.amount@),
        ensures
            final(self).wf(),
            final(self).ledger() == ledger_step(old(self).ledger(), *msg),
            r == ledger_step_result(old(self).ledger(), *msg),
            final(self).batch_size() == old(self).batch_size(),
    {
        let client = msg.client_id;
        let mut account = match accounts_remove(&mut self.accounts, client) {
            Some(entry) => entry.1,
            None => Account::new(client),
        };
        let ghost pre = old(self).ledger();
        assert(account@ == account_in(pre, client));
        let res = match msg.transaction_type {
            TransactionType::Deposit => account.process_deposit(msg),
            TransactionType::Withdrawal => account.process_withdrawal(msg),
            TransactionType::Dispute => account.process_dispute(msg),
            TransactionType::Resolve => account.process_resolve(msg),
            TransactionType::Chargeback => account.process_chargeback(msg),
        };
        accounts_insert(&mut self.accounts, client, account);
        assert(self.ledger() =~= ledger_step(pre, *msg));
        res
    }

    /// Takes the oldest transaction out of the buffer and applies it to the
    /// account of its client, returning its outcome.
    pub fn process_oldest<C>(&mut self, buffer: &mut Vec<PendingTransaction<C>>) -> (r: Outcome<C>)
        requires
            old(self).wf(),
            amounts_fit(old(buffer)@),
            old(buffer)@.len() > 0,
        ensures
            final(self).wf(),
            final(self).batch_size() == old(self).batch_size(),
            ({
                let b = old(buffer)@;
                let p = b[oldest_index(b)];
                &&& final(buffer)@ == b.remove(oldest_index(b))
                &&& final(self).ledger() == ledger_step(old(self).ledger(), *p.message)
                &&& r.0 == p.callback
                &&& r.1 == p.message.client_id
                &&& r.2 == p.message.transaction_id
                &&& r.3 == p.message.transaction_type
                &&& r.4 == ledger_step_result(old(self).ledger(), *p.message)
            }),
            amounts_fit(final(buffer)@),
    {
        let ghost b = buffer@;
        proof {
            crate::service::pending_transaction::lemma_oldest_index(b);
        }
        let pending = take_oldest(buffer);
        proof {
            assert forall|i: int| 0 <= i < buffer@.len() implies fits_i64(
                #[trigger] buffer@[i].message.amount@,
            ) by {
                if i < oldest_index(b) {
                    assert(buffer@[i] == b[i]);
                } else {
                    assert(buffer@[i] == b[i + 1]);
                }
            }
        }
        let res = self.apply_message(&pending.message);
        let client = pending.message.client_id;
        let tx = pending.message.transaction_id;
        let kind = pending.message.transaction_type;
        (pending.callback, client, tx, kind, res)
    }

    /// Processes the messages in the buffer, oldest first, emptying it, and
    /// returns the outcome of each in processing order.
    pub fn handle_buffer<C>(&mut self, buffer: &mut Vec<PendingTransaction<C>>) -> (r: Vec<
        Outcome<C>,
    >)
        requires
            old(self).wf(),
            amounts_fit(old(buffer)@),
        ensures
            final(self).wf(),
            final(buffer)@.len() == 0,
            batch_processed(old(self).ledger(), final(self).ledger(), old(buffer)@, r@),
            final(self).batch_size() == old(self).batch_size(),
    {
        let ghost order = processing_order(old(buffer)@);
        let ghost ms = messages_of(order);
        let ghost l0 = old(self).ledger();
        let mut outcomes: Vec<Outcome<C>> = Vec::new();
        proof {
            lemma_processing_order_len(old(buffer)@);
            assert(order.skip(0) =~= order);
            assert(ms.take(0) =~= Seq::<InputMessage>::empty());
        }
        while buffer.len() > 0
            invariant
                self.wf(),
                self.batch_size() == old(self).batch_size(),
                amounts_fit(buffer@),
                order == processing_order(old(buffer)@),
                ms == messages_of(order),
                order.len() == old(buffer)@.len(),
                outcomes@.len() + buffer@.len() == order.len(),
                processing_order(buffer@) == order.skip(outcomes@.len() as int),
                self.ledger() == ledger_run(l0, ms.take(outcomes@.len() as int)),
                forall|i: int|
                    0 <= i < outcomes@.len() ==> (#[trigger] outcomes@[i]).0 == order[i].callback
                        && outcomes@[i].1 == order[i].message.client_id && outcomes@[i].2
                        == order[i].message.transaction_id && outcomes@[i].3
                        == order[i].message.transaction_type && outcomes@[i].4
                        == ledger_run_results(l0, ms.take(outcomes@.len() as int))[i],
            decreases buffer@.len(),
        {
            let ghost k = outcomes@.len() as int;
            let ghost b = buffer@;
            proof {
                crate::service::pending_transaction::lemma_oldest_index(b);
                let o = oldest_index(b);
                assert(processing_order(b) == seq![b[o]] + processing_order(b.remove(o)));
                assert(order.skip(k)[0] == b[o]);
                assert(order.skip(k + 1) =~= order.skip(k).skip(1));
                assert((seq![b[o]] + processing_order(b.remove(o))).skip(1) =~= processing_order(
                    b.remove(o),
                ));
                assert(ms.take(k + 1).drop_last() =~= ms.take(k));
                assert(ms[k] == *order[k].message);
            }
            let ghost before = self.ledger();
            let outcome = self.process_oldest(buffer);
            outcomes.push(outcome);
            proof {
                let results_prev = ledger_run_results(l0, ms.take(k));
                let results_now = ledger_run_results(l0, ms.take(k + 1));
                lemma_run_results_len(l0, ms.take(k));
                assert(results_now == results_prev.push(ledger_step_result(before, ms[k])));
                assert forall|i: int| 0 <= i < outcomes@.len() implies (
                    #[trigger] outcomes@[i]).0 == order[i].callback && outcomes@[i].1
                    == order[i].message.client_id && outcomes@[i].2
                    == order[i].message.transaction_id && outcomes@[i].3
                    == order[i].message.transaction_type && outcomes@[i].4 == results_now[i] by {
                    if i < k {
                        assert(results_now[i] == results_prev[i]);
                    }
                }
            }
        }
        proof {
            assert(ms.take(order.len() as int) =~= ms);
        }
        outcomes
    }

    /// Takes in one service message: a transaction goes into the buffer. Says
    /// whether the buffer is now to be processed (it holds a full batch, or
    /// the message signals completion), and hands back the handle of a
    /// completion signal, to be acknowledged once the buffer is processed.
    pub fn enqueue<C, D>(&self, msg: ServiceMessage<C, D>, buffer: &mut Vec<PendingTransaction<C>>) -> (r: (
        bool,
        Option<D>,
    ))
        requires
            amounts_fit(old(buffer)@),
            msg matches ServiceMessage::Incoming(m, _) ==> fits_i64(m.amount@),
        ensures
            amounts_fit(final(buffer)@),
            match msg {
                ServiceMessage::Incoming(m, c) => {
                    &&& final(buffer)@ == old(buffer)@.push(
                        PendingTransaction { message: m, callback: c },
                    )
                    &&& r.0 == (final(buffer)@.len() >= self.batch_size())
                    &&& r.1 is None
                },
                ServiceMessage::TransactionBatchCompletion(d) => {
                    &&& final(buffer)@ == old(buffer)@
                    &&& r.0
                    &&& r.1 == Some(d)
                },
            },
    {
        match msg {
            ServiceMessage::Incoming(m, c) => {
                buffer.push(PendingTransaction { message: m, callback: c });
                (buffer.len() >= self.config.batch_size, None)
            },
            ServiceMessage::TransactionBatchCompletion(callback) => (true, Some(callback)),
        }
    }

    /// Handles a single incoming service message. A transaction is buffered,
    /// and the buffer is flushed once it holds a full batch; a completion
    /// signal flushes the buffer and hands back the handle to acknowledge.
    /// Returns the outcomes of the flushed transactions, if any.
    pub fn iteration<C, D>(
        &mut self,
        msg: ServiceMessage<C, D>,
        buffer: &mut Vec<PendingTransaction<C>>,
    ) -> (r: (Vec<Outcome<C>>, Option<D>))
        requires
            old(self).wf(),
            amounts_fit(old(buffer)@),
            msg matches ServiceMessage::Incoming(m, _) ==> fits_i64(m.amount@),
        ensures
            final(self).wf(),
            final(self).batch_size() == old(self).batch_size(),
            amounts_fit(final(buffer)@),
            match msg {
                ServiceMessage::Incoming(m, c) => {
                    let grown = old(buffer)@.push(PendingTransaction { message: m, callback: c });
                    &&& r.1 is None
                    &&& if grown.len() >= old(self).batch_size() {
                        &&& final(buffer)@.len() == 0
                        &&& batch_processed(old(self).ledger(), final(self).ledger(), grown, r.0@)
                    } else {
                        &&& final(buffer)@ == grown
                        &&& r.0@.len() == 0
                        &&& final(self).ledger() == old(self).ledger()
                    }
                },
                ServiceMessage::TransactionBatchCompletion(d) => {
                    &&& r.1 == Some(d)
                    &&& final(buffer)@.len() == 0
                    &&& batch_processed(
                        old(self).ledger(),
                        final(self).ledger(),
                        old(buffer)@,
                        r.0@,
                    )
                },
            },
    {
        let (flush, ack) = self.enqueue(msg, buffer);
        if flush {
            (self.handle_buffer(buffer), ack)
        } else {
            (Vec::new(), ack)
        }
    }

    /// The number of accounts.
    pub fn account_count(&self) -> (n: usize)
        requires
            self.wf(),
        ensures
            n == self.ledger().len(),
    {
        let n = accounts_len(&self.accounts);
        assert(self.ledger().dom() =~= dashmap_accounts(self.accounts).dom());
        n
    }

    /// The balances of the account of `client_id`, if it has one.
    pub fn account(&self, client_id: ClientId) -> (r: Option<OutputMessage>)
        ensures
            match r {
                Some(out) => self.ledger().contains_key(client_id) && out.shows(
                    self.ledger()[client_id],
                ),
                None => !self.ledger().contains_key(client_id),
            },
    {
        accounts_get(&self.accounts, client_id)
    }

    /// The balances of every account, each once, in the map's own order.
    pub fn snapshot(&self) -> (rows: Vec<OutputMessage>)
        requires
            self.wf(),
        ensures
            rows@.len() == self.ledger().len(),
            forall|i: int|
                0 <= i < rows@.len() ==> self.ledger().contains_key((#[trigger] rows@[i]).client_id)
                    && rows@[i].shows(self.ledger()[rows@[i].client_id]),
            forall|i: int, j: int|
                0 <= i < j < rows@.len() ==> (#[trigger] rows@[i]).client_id != (
                #[trigger] rows@[j]).client_id,
            forall|c: ClientId| #[trigger]
                self.ledger().contains_key(c) ==> exists|i: int|
                    0 <= i < rows@.len() && rows@[i].client_id == c,
    {
        let entries = accounts_iter(&self.accounts);
        let mut rows: Vec<OutputMessage> = Vec::new();
        let mut i: usize = 0;
        while i < entries.len()
            invariant
                self.wf(),
                i <= entries@.len(),
                rows@.len() == i,
                entries@.len() == dashmap_accounts(self.accounts).len(),
                forall|j: int|
                    0 <= j < entries@.len() ==> dashmap_accounts(self.accounts).contains_key(
                        #[trigger] entries@[j].0,
                    ) && entries@[j].1.shows(dashmap_accounts(self.accounts)[entries@[j].0]@),
                forall|j: int, k: int|
                    0 <= j < k < entries@.len() ==> #[trigger] entries@[j].0
                        != #[trigger] entries@[k].0,
                forall|j: int| 0 <= j < i ==> (#[trigger] rows@[j]) == entries@[j].1,
            decreases entries@.len() - i,
        {
            rows.push(entries[i].1);
            i = i + 1;
        }
        proof {
            assert(self.ledger().dom() =~= dashmap_accounts(self.accounts).dom());
            assert forall|j: int| 0 <= j < rows@.len() implies rows@[j].client_id
                == entries@[j].0 by {
                assert(dashmap_accounts(self.accounts).contains_key(entries@[j].0));
            }
            lemma_rows_cover(rows@, self.ledger());
        }
        rows
    }

    /// The whole output: the header record, then one record per account,
    /// each client once, in the map's own order.
    pub fn snapshot_records(&self) -> (r: Vec<Vec<String>>)
        requires
            self.wf(),
        ensures
            r@.len() == self.ledger().len() + 1,
            record_text(r@[0]) == header_record(),
            forall|i: int| 1 <= i < r@.len() ==> is_row_of(self.ledger(), #[trigger] record_text(r@[i])),
            forall|c: ClientId| #[trigger]
                self.ledger().contains_key(c) ==> exists|i: int|
                    1 <= i < r@.len() && record_text(r@[i]) == account_record(self.ledger()[c]),
            forall|i: int, j: int|
                1 <= i < j < r@.len() ==> #[trigger] record_text(r@[i])[0] != #[trigger] record_text(
                    r@[j],
                )[0],
    {
        let rows = self.snapshot();
        let mut r: Vec<Vec<String>> = Vec::new();
        let header = OutputMessage::header();
        proof {
            assert(record_text(header) =~= header_record());
        }
        r.push(header);
        let mut i: usize = 0;
        while i < rows.len()
            invariant
                i <= rows@.len(),
                r@.len() == i + 1,
                rows@.len() == self.ledger().len(),
                record_text(r@[0]) == header_record(),
                forall|j: int|
                    0 <= j < rows@.len() ==> self.ledger().contains_key(
                        (#[trigger] rows@[j]).client_id,
                    ) && rows@[j].shows(self.ledger()[rows@[j].client_id]),
                forall|j: int|
                    1 <= j <= i ==> #[trigger] record_text(r@[j]) == account_record(
                        self.ledger()[rows@[j - 1].client_id],
                    ),
                forall|c: ClientId| #[trigger]
                    self.ledger().contains_key(c) ==> exists|j: int|
                        0 <= j < rows@.len() && rows@[j].client_id == c,
            decreases rows@.len() - i,
        {
            let rec = rows[i].to_record();
            proof {
                let a = self.ledger()[rows@[i as int].client_id];
                assert(record_text(rec) =~= account_record(a));
            }
            r.push(rec);
            i = i + 1;
        }
        proof {
            assert forall|i: int| 1 <= i < r@.len() implies is_row_of(
                self.ledger(),
                #[trigger] record_text(r@[i]),
            ) by {
                let c = rows@[i - 1].client_id;
                assert(self.ledger().contains_key(c));
                assert(record_text(r@[i]) == account_record(self.ledger()[c]));
            }
            assert forall|i: int, j: int| 1 <= i < j < r@.len() implies #[trigger] record_text(
                r@[i],
            )[0] != #[trigger] record_text(r@[j])[0] by {
                let a = rows@[i - 1].client_id;
                let b = rows@[j - 1].client_id;
                assert(record_text(r@[i])[0] == decimal_digits(a as nat));
                assert(record_text(r@[j])[0] == decimal_digits(b as nat));
                crate::domain::amount::lemma_decimal_digits_props(a as nat);
                crate::domain::amount::lemma_decimal_digits_props(b as nat);
            }
            assert forall|c: ClientId| #[trigger] self.ledger().contains_key(c) implies exists|i: int|
                1 <= i < r@.len() && record_text(r@[i]) == account_record(self.ledger()[c]) by {
                let j = choose|j: int| 0 <= j < rows@.len() && rows@[j].client_id == c;
                assert(record_text(r@[j + 1]) == account_record(self.ledger()[c]));
            }
        }
        r
    }
}

impl Default for Service {
    fn default() -> (r: Self)
        ensures
            r.wf(),
            r.ledger() == Map::<ClientId, AccountModel>::empty(),
            r.batch_size() == 10,
    {
        Service::new(ServiceConfig::default())
    }
}

/// Every account of a well-formed service keeps the account invariant and is
/// filed under its own client.
pub proof fn law_service_accounts_keep_invariant(svc: &Service)
    requires
        svc.wf(),
    ensures
        svc.ledger().dom().finite(),
        forall|c: ClientId| #[trigger]
            svc.ledger().contains_key(c) ==> svc.ledger()[c].inv() && svc.ledger()[c].client_id
                == c,
{
    assert forall|c: ClientId| #[trigger] svc.ledger().contains_key(c) implies svc.ledger()[
        c
    ].inv() && svc.ledger()[c].client_id == c by {
        crate::domain::account::lemma_account_wf(&dashmap_accounts(svc.accounts)[c]);
    }
    assert(svc.ledger().dom() =~= dashmap_accounts(svc.accounts).dom());
}

/// Processing a message creates the account of its client if needed,
/// whatever the outcome, and leaves every other client's account exactly as
/// it was.
pub proof fn law_client_isolation(
    ledger: Map<ClientId, AccountModel>,
    m: InputMessage,
    c: ClientId,
)
    requires
        c != m.client_id,
    ensures
        ledger_step(ledger, m).contains_key(m.client_id),
        ledger_step(ledger, m).contains_key(c) == ledger.contains_key(c),
        ledger.contains_key(c) ==> ledger_step(ledger, m)[c] == ledger[c],
{
}

/// A run of messages none of which is for client `c` leaves the account of
/// `c` (or its absence) exactly as it was.
pub proof fn law_run_leaves_other_clients_alone(
    ledger: Map<ClientId, AccountModel>,
    ms: Seq<InputMessage>,
    c: ClientId,
)
    requires
        forall|i: int| 0 <= i < ms.len() ==> (#[trigger] ms[i]).client_id != c,
    ensures
        ledger_run(ledger, ms).contains_key(c) == ledger.contains_key(c),
        ledger.contains_key(c) ==> ledger_run(ledger, ms)[c] == ledger[c],
    decreases ms.len(),
{
    if ms.len() > 0 {
        law_run_leaves_other_clients_alone(ledger, ms.drop_last(), c);
        assert(ms.last().client_id != c);
    }
}

/// Applying messages whose amounts are scaled `i64` values keeps every
/// account of the ledger within the account invariant.
pub proof fn law_run_keeps_invariant(ledger: Map<ClientId, AccountModel>, ms: Seq<InputMessage>)
    requires
        forall|c: ClientId| #[trigger] ledger.contains_key(c) ==> ledger[c].inv(),
        forall|i: int| 0 <= i < ms.len() ==> fits_i64((#[trigger] ms[i]).amount@),
    ensures
        forall|c: ClientId| #[trigger]
            ledger_run(ledger, ms).contains_key(c) ==> ledger_run(ledger, ms)[c].inv(),
    decreases ms.len(),
{
    if ms.len() > 0 {
        let prefix = ms.drop_last();
        law_run_keeps_invariant(ledger, prefix);
        let before = ledger_run(ledger, prefix);
        let m = ms.last();
        assert(fits_i64(ms[ms.len() - 1].amount@));
        assert(account_in(before, m.client_id).inv()) by {
            if !before.contains_key(m.client_id) {
                assert(AccountModel::fresh(m.client_id).states =~= Map::empty());
                assert(AccountModel::fresh(m.client_id).pending =~= Map::empty());
                assert(pending_sum(Map::<TransactionId, int>::empty()) == 0);
            }
        }
        crate::domain::account::law_apply_keeps_invariant(account_in(before, m.client_id), m);
    }
}

/// There is one outcome for each message applied.
pub proof fn lemma_run_results_len(ledger: Map<ClientId, AccountModel>, ms: Seq<InputMessage>)
    ensures
        ledger_run_results(ledger, ms).len() == ms.len(),
    decreases ms.len(),
{
    if ms.len() > 0 {
        lemma_run_results_len(ledger, ms.drop_last());
    }
}

/// A batch processes as many transactions as the buffer holds.
pub proof fn lemma_processing_order_len<C>(s: Seq<PendingTransaction<C>>)
    ensures
        processing_order(s).len() == s.len(),
    decreases s.len(),
{
    if s.len() > 0 {
        crate::service::pending_transaction::lemma_oldest_index(s);
        lemma_processing_order_len(s.remove(oldest_index(s)));
    }
}

/// Rows for distinct clients of a ledger, as many as it has accounts, name
/// every one of its clients.
proof fn lemma_rows_cover(rows: Seq<OutputMessage>, ledger: Map<ClientId, AccountModel>)
    requires
        ledger.dom().finite(),
        rows.len() == ledger.len(),
        forall|i: int| 0 <= i < rows.len() ==> ledger.contains_key(#[trigger] rows[i].client_id),
        forall|i: int, j: int|
            0 <= i < j < rows.len() ==> (#[trigger] rows[i]).client_id != (#[trigger] rows[j]).client_id,
    ensures
        forall|c: ClientId| #[trigger]
            ledger.contains_key(c) ==> exists|i: int| 0 <= i < rows.len() && rows[i].client_id == c,
{
    let ids = rows.map_values(|o: OutputMessage| o.client_id);
    assert(ids.no_duplicates()) by {
        assert forall|i: int, j: int| 0 <= i < ids.len() && 0 <= j < ids.len() && i != j implies ids[i]
            != ids[j] by {
            if i < j {
                assert(rows[i].client_id != rows[j].client_id);
            } else {
                assert(rows[j].client_id != rows[i].client_id);
            }
        }
    }
    ids.unique_seq_to_set();
    assert(ids.to_set().subset_of(ledger.dom())) by {
        assert forall|c: ClientId| ids.to_set().contains(c) implies ledger.dom().contains(c) by {
            assert(ids.contains(c));
            let i = choose|i: int| 0 <= i < ids.len() && ids[i] == c;
            assert(ledger.contains_key(rows[i].client_id));
        }
    }
    vstd::set_lib::lemma_subset_equality(ids.to_set(), ledger.dom());
    assert forall|c: ClientId| #[trigger] ledger.contains_key(c) implies exists|i: int|
        0 <= i < rows.len() && rows[i].client_id == c by {
        assert(ids.to_set().contains(c));
        assert(ids.contains(c));
        let i = choose|i: int| 0 <= i < ids.len() && ids[i] == c;
        assert(rows[i].client_id == c);
    }
}

} // verus!
