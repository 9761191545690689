use nda_takehome::domain::account::TransactionState::{Chargeback, Disputed, Normal, Resolved};
use nda_takehome::domain::account::{Account, TransactionState};
use nda_takehome::domain::amount::Amount;
use nda_takehome::domain::transaction::{TransactionId, TransactionType};
use nda_takehome::message::{InputMessage, OutputMessage};
use nda_takehome::service::error::TransactionError;

fn make_msg(chrono: u64, kind: TransactionType, tx: TransactionId, amount: i64) -> InputMessage {
    InputMessage {
        chrono_order: chrono,
        transaction_type: kind,
        client_id: 1,
        transaction_id: tx,
        amount: Amount::from_major(amount),
    }
}

fn apply(acc: &mut Account, msg: &InputMessage) -> Result<(), TransactionError> {
    match msg.transaction_type {
        TransactionType::Deposit => acc.process_deposit(msg),
        TransactionType::Withdrawal => acc.process_withdrawal(msg),
        TransactionType::Dispute => acc.process_dispute(msg),
        TransactionType::Resolve => acc.process_resolve(msg),
        TransactionType::Chargeback => acc.process_chargeback(msg),
    }
}

/// The account invariant, checked on concrete values.
fn assert_invariants(acc: &Account) {
    let zero = Amount::zero();
    assert!(acc.available >= zero);
    assert!(acc.held >= zero);
    assert!(acc.total >= zero);
    assert_eq!(acc.total, &acc.available + &acc.held);
    let mut held = Amount::zero();
    for (tx, amount) in &acc.pending_disputes {
        assert!(acc.disputes.contains(tx));
        assert!(amount.is_positive());
        held = &held + amount;
    }
    assert_eq!(held, acc.held);
    for (tx, (state, _)) in &acc.transactions {
        let memberships = [
            acc.normal.contains(tx),
            acc.disputes.contains(tx),
            acc.resolves.contains(tx),
            acc.chargebacks.contains(tx),
        ];
        assert_eq!(memberships.iter().filter(|m| **m).count(), 1);
        let expected = match state {
            TransactionState::Normal => 0,
            TransactionState::Disputed => 1,
            TransactionState::Resolved => 2,
            TransactionState::Chargeback => 3,
        };
        assert!(memberships[expected]);
    }
    let set_total =
        acc.normal.len() + acc.disputes.len() + acc.resolves.len() + acc.chargebacks.len();
    assert_eq!(set_total, acc.transactions.len());
    assert_eq!(acc.locked, !acc.chargebacks.is_empty());
}

#[test]
fn lifecycle_keeps_invariants_at_every_step() {
    let mut acc = Account::new(1);
    let steps = [
        (TransactionType::Deposit, 1, 300),
        (TransactionType::Deposit, 2, 200),
        (TransactionType::Withdrawal, 3, 100),
        (TransactionType::Dispute, 1, 150),
        (TransactionType::Dispute, 1, 100),
        (TransactionType::Resolve, 1, 50),
        (TransactionType::Dispute, 2, 1000),
        (TransactionType::Resolve, 2, 1000),
        (TransactionType::Dispute, 2, 20),
        (TransactionType::Chargeback, 1, 120),
        (TransactionType::Deposit, 4, 5),
    ];
    for (i, (kind, tx, amount)) in steps.iter().enumerate() {
        let _ = apply(&mut acc, &make_msg(i as u64, *kind, *tx, *amount));
        assert_invariants(&acc);
    }
    assert!(acc.locked);
    // tx 1: 250 held, 120 charged back, 130 returned.
    assert_eq!(acc.total, Amount::from_major(280));
    assert_eq!(acc.held, Amount::from_major(20));
    assert_eq!(acc.available, Amount::from_major(260));
}

#[test]
fn chargeback_locks_permanently() {
    let mut acc = Account::new(1);
    acc.process_deposit(&make_msg(0, TransactionType::Deposit, 1, 100)).unwrap();
    acc.process_dispute(&make_msg(1, TransactionType::Dispute, 1, 60)).unwrap();
    acc.process_chargeback(&make_msg(2, TransactionType::Chargeback, 1, 60)).unwrap();
    assert!(acc.locked);
    let (available, held, total) = (acc.available, acc.held, acc.total);
    let kinds = [
        TransactionType::Deposit,
        TransactionType::Withdrawal,
        TransactionType::Dispute,
        TransactionType::Resolve,
        TransactionType::Chargeback,
    ];
    for (i, kind) in kinds.iter().enumerate() {
        let result = apply(&mut acc, &make_msg(3 + i as u64, *kind, 1 + i as u32, 10));
        assert_eq!(result, Err(TransactionError::AccountLocked));
        assert_eq!((acc.available, acc.held, acc.total), (available, held, total));
        assert!(acc.locked);
    }
}

#[test]
fn dispute_resolve_roundtrip_exact() {
    let mut acc = Account::new(1);
    acc.process_deposit(&make_msg(0, TransactionType::Deposit, 1, 700)).unwrap();
    let (available, held) = (acc.available, acc.held);
    acc.process_dispute(&make_msg(1, TransactionType::Dispute, 1, 300)).unwrap();
    assert_eq!(acc.held, Amount::from_major(300));
    acc.process_resolve(&make_msg(2, TransactionType::Resolve, 1, 300)).unwrap();
    assert_eq!((acc.available, acc.held), (available, held));
    assert!(acc.resolves.contains(&1));
    assert!(acc.pending_disputes.is_empty());
}

#[test]
fn redispute_after_resolve_accumulates_again() {
    let mut acc = Account::new(1);
    acc.process_deposit(&make_msg(0, TransactionType::Deposit, 1, 100)).unwrap();
    acc.process_dispute(&make_msg(1, TransactionType::Dispute, 1, 40)).unwrap();
    acc.process_resolve(&make_msg(2, TransactionType::Resolve, 1, 40)).unwrap();
    assert!(acc.process_dispute(&make_msg(3, TransactionType::Dispute, 1, 25)).is_ok());
    assert_eq!(acc.held, Amount::from_major(25));
    assert_eq!(acc.available, Amount::from_major(75));
    assert!(acc.disputes.contains(&1));
}

#[test]
fn partial_resolve_stays_disputed() {
    let mut acc = Account::new(1);
    acc.process_deposit(&make_msg(0, TransactionType::Deposit, 1, 100)).unwrap();
    acc.process_dispute(&make_msg(1, TransactionType::Dispute, 1, 80)).unwrap();
    acc.process_resolve(&make_msg(2, TransactionType::Resolve, 1, 30)).unwrap();
    assert!(acc.disputes.contains(&1));
    assert_eq!(acc.pending_disputes.get(&1), Some(&Amount::from_major(50)));
    // A zero resolve moves nothing and changes no state.
    acc.process_resolve(&make_msg(3, TransactionType::Resolve, 1, 0)).unwrap();
    assert_eq!(acc.held, Amount::from_major(50));
}

#[test]
fn zero_dispute_is_a_no_op() {
    let mut acc = Account::new(1);
    acc.process_deposit(&make_msg(0, TransactionType::Deposit, 1, 10)).unwrap();
    acc.process_withdrawal(&make_msg(1, TransactionType::Withdrawal, 2, 10)).unwrap();
    // Nothing is available, so the dispute moves nothing and tx 1 stays Normal.
    assert_eq!(acc.process_dispute(&make_msg(2, TransactionType::Dispute, 1, 5)), Ok(()));
    assert!(acc.normal.contains(&1));
    assert_eq!(
        acc.process_resolve(&make_msg(3, TransactionType::Resolve, 1, 5)),
        Err(TransactionError::TransactionNotDisputed)
    );
}

#[test]
fn duplicate_and_unknown_ids_are_rejected() {
    let mut acc = Account::new(1);
    acc.process_deposit(&make_msg(0, TransactionType::Deposit, 42, 10)).unwrap();
    assert_eq!(
        acc.process_deposit(&make_msg(1, TransactionType::Deposit, 42, 99)),
        Err(TransactionError::DuplicateTransaction)
    );
    assert_eq!(
        acc.process_withdrawal(&make_msg(2, TransactionType::Withdrawal, 42, 1)),
        Err(TransactionError::DuplicateTransaction)
    );
    assert_eq!(acc.available, Amount::from_major(10));
    for kind in [TransactionType::Dispute, TransactionType::Resolve, TransactionType::Chargeback] {
        assert_eq!(
            apply(&mut acc, &make_msg(3, kind, 999, 10)),
            Err(TransactionError::InvalidTransaction)
        );
    }
    assert_eq!(acc.available, Amount::from_major(10));
}

#[test]
fn overdraw_always_rejected() {
    let mut acc = Account::new(1);
    acc.process_deposit(&make_msg(0, TransactionType::Deposit, 1, 50)).unwrap();
    assert_eq!(
        acc.process_withdrawal(&make_msg(1, TransactionType::Withdrawal, 2, 51)),
        Err(TransactionError::InsufficientBalance)
    );
    assert_eq!(acc.total, Amount::from_major(50));
    acc.process_withdrawal(&make_msg(2, TransactionType::Withdrawal, 3, 50)).unwrap();
    assert_eq!(acc.available, Amount::zero());
}

#[test]
fn transaction_state_transitions() {
    let states = [Normal, Disputed, Resolved, Chargeback];
    for from in states {
        assert_eq!(
            from.can_transition(Normal).err(),
            Some(TransactionError::CannotRevertToNormal)
        );
    }
    for to in [Disputed, Resolved, Chargeback] {
        assert_eq!(
            Chargeback.can_transition(to).err(),
            Some(TransactionError::AccountLocked)
        );
    }
    for from in [Normal, Disputed, Resolved] {
        let t = from.can_transition(Disputed).ok().unwrap();
        assert_eq!((t.from, t.to), (from, Disputed));
    }
    assert!(Disputed.can_transition(Resolved).is_ok());
    assert!(Disputed.can_transition(Chargeback).is_ok());
    assert_eq!(
        Normal.can_transition(Chargeback).err(),
        Some(TransactionError::TransactionNotDisputed)
    );
    assert_eq!(
        Resolved.can_transition(Resolved).err(),
        Some(TransactionError::TransactionNotDisputed)
    );
}

#[test]
fn negative_amounts_are_rejected() {
    let mut acc = Account::new(1);
    assert_eq!(
        acc.process_deposit(&make_msg(0, TransactionType::Deposit, 1, -5)),
        Err(TransactionError::AmountNegative)
    );
    assert_eq!(acc.available, Amount::zero());
    assert_eq!(acc.total, Amount::zero());
    assert!(acc.transactions.is_empty());
    assert!(acc.normal.is_empty());
    acc.process_deposit(&make_msg(1, TransactionType::Deposit, 2, 10)).unwrap();
    assert_eq!(
        acc.process_withdrawal(&make_msg(2, TransactionType::Withdrawal, 3, -5)),
        Err(TransactionError::AmountNegative)
    );
    assert_eq!(acc.available, Amount::from_major(10));
    // A duplicate ID is reported before a negative amount.
    assert_eq!(
        acc.process_deposit(&make_msg(3, TransactionType::Deposit, 2, -1)),
        Err(TransactionError::DuplicateTransaction)
    );
    assert_invariants(&acc);
}

#[test]
fn error_messages() {
    assert_eq!(TransactionError::AccountLocked.message(), "The account is locked");
    assert_eq!(
        TransactionError::InsufficientBalance.message(),
        "Unable to withdraw due to insufficient balance"
    );
    assert_eq!(TransactionType::from_str("resolve"), Some(TransactionType::Resolve));
    assert_eq!(TransactionType::from_str("Resolve"), None);
    assert_eq!(TransactionType::Chargeback.label(), "chargeback");
}

#[test]
fn snapshot_of_an_account() {

    let mut acc = Account::new(7);
    acc.process_deposit(&make_msg(0, TransactionType::Deposit, 1, 12)).unwrap();
    let out = OutputMessage::from(&acc);
    assert_eq!(out.client_id, 7);
    assert_eq!(out.total, Amount::from_major(12));
    assert_eq!(
        out.to_record(),
        vec!["7", "12.0000", "0.0000", "12.0000", "false"]
    );
}

#[test]
fn zero_amount_chargeback_still_locks() {
    let mut acc = Account::new(1);
    assert_eq!(apply(&mut acc, &make_msg(0, TransactionType::Deposit, 1, 1000)), Ok(()));
    assert_eq!(apply(&mut acc, &make_msg(1, TransactionType::Dispute, 1, 500)), Ok(()));
    assert_eq!(apply(&mut acc, &make_msg(2, TransactionType::Chargeback, 1, 0)), Ok(()));
    assert!(acc.locked);
    assert_eq!(acc.total, Amount::from_major(1000));
    assert_eq!(acc.available, Amount::from_major(1000));
    assert_eq!(acc.held, Amount::zero());
    assert!(acc.pending_disputes.is_empty());
    assert!(acc.chargebacks.contains(&1));
    assert_eq!(acc.transactions.get(&1).map(|e| e.0), Some(Chargeback));
    assert_invariants(&acc);
    // The account stays frozen afterwards.
    assert_eq!(
        apply(&mut acc, &make_msg(3, TransactionType::Deposit, 2, 10)),
        Err(TransactionError::AccountLocked)
    );
}

#[test]
fn negative_amount_chargeback_locks_and_charges_nothing() {
    let mut acc = Account::new(1);
    assert_eq!(apply(&mut acc, &make_msg(0, TransactionType::Deposit, 1, 100)), Ok(()));
    assert_eq!(apply(&mut acc, &make_msg(1, TransactionType::Dispute, 1, 40)), Ok(()));
    assert_eq!(apply(&mut acc, &make_msg(2, TransactionType::Chargeback, 1, -5)), Ok(()));
    assert!(acc.locked);
    assert_eq!(acc.total, Amount::from_major(100));
    assert_eq!(acc.available, Amount::from_major(100));
    assert_eq!(acc.held, Amount::zero());
}
