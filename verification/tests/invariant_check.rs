use nda_takehome::domain::account::{check_invariants, Account, TransactionState};
use nda_takehome::domain::amount::Amount;
use nda_takehome::domain::transaction::{TransactionId, TransactionType};
use nda_takehome::message::InputMessage;

const KINDS: [TransactionType; 5] = [
    TransactionType::Deposit,
    TransactionType::Withdrawal,
    TransactionType::Dispute,
    TransactionType::Resolve,
    TransactionType::Chargeback,
];

/// A small deterministic pseudo-random generator (64-bit LCG).
struct Lcg(u64);

impl Lcg {
    fn next(&mut self) -> u64 {
        self.0 = self
            .0
            .wrapping_mul(6364136223846793005)
            .wrapping_add(1442695040888963407);
        self.0 >> 33
    }

    /// A value in `lo..=hi`.
    fn range(&mut self, lo: u64, hi: u64) -> u64 {
        lo + self.next() % (hi - lo + 1)
    }
}

fn msg(chrono: u64, kind: TransactionType, tx: TransactionId, amount: i64) -> InputMessage {
    InputMessage {
        chrono_order: chrono,
        transaction_type: kind,
        client_id: 1,
        transaction_id: tx,
        amount: Amount::from_major(amount),
    }
}

/// Applies one operation and checks every invariant right after it.
fn apply_and_check(acc: &mut Account, m: &InputMessage) {
    let _ = match m.transaction_type {
        TransactionType::Deposit => acc.process_deposit(m),
        TransactionType::Withdrawal => acc.process_withdrawal(m),
        TransactionType::Dispute => acc.process_dispute(m),
        TransactionType::Resolve => acc.process_resolve(m),
        TransactionType::Chargeback => acc.process_chargeback(m),
    };
    assert!(check_invariants(acc), "invariants broken after {:?}: {:?}", m, acc);
}

fn random_kind(rng: &mut Lcg) -> TransactionType {
    KINDS[rng.range(0, 4) as usize]
}

/// Runs `cases` random operation sequences of 1 to `max_ops` operations each.
fn run_random(seed: u64, cases: u64, max_ops: u64, max_tx: u64, max_amount: u64) {
    let mut rng = Lcg(seed);
    for _ in 0..cases {
        let mut acc = Account::new(1);
        let n = rng.range(1, max_ops);
        for i in 0..n {
            let kind = random_kind(&mut rng);
            let tx = rng.range(1, max_tx) as TransactionId;
            let amount = rng.range(0, max_amount) as i64;
            apply_and_check(&mut acc, &msg(i, kind, tx, amount));
        }
    }
}

#[test]
fn fresh_account_passes_check() {
    assert!(check_invariants(&Account::new(7)));
}

#[test]
fn random_ops_never_violate_invariants() {
    run_random(1, 500, 99, 10, 1000);
}

#[test]
fn random_ops_wide_tx_ids() {
    run_random(2, 500, 99, 1000, 10_000);
}

#[test]
fn deposit_heavy_then_random_lifecycle() {
    let mut rng = Lcg(3);
    for _ in 0..500 {
        let mut acc = Account::new(1);
        let mut chrono = 0u64;
        for _ in 0..rng.range(1, 14) {
            let tx = rng.range(1, 10) as TransactionId;
            let amount = rng.range(1, 500) as i64;
            apply_and_check(&mut acc, &msg(chrono, TransactionType::Deposit, tx, amount));
            chrono += 1;
        }
        for _ in 0..rng.range(0, 49) {
            let kind = random_kind(&mut rng);
            let tx = rng.range(1, 10) as TransactionId;
            let amount = rng.range(0, 1000) as i64;
            apply_and_check(&mut acc, &msg(chrono, kind, tx, amount));
            chrono += 1;
        }
    }
}

#[test]
fn zero_amount_ops_are_safe() {
    let mut rng = Lcg(4);
    for _ in 0..500 {
        let mut acc = Account::new(1);
        for i in 0..rng.range(1, 49) {
            let kind = random_kind(&mut rng);
            let tx = rng.range(1, 5) as TransactionId;
            apply_and_check(&mut acc, &msg(i, kind, tx, 0));
        }
        assert_eq!(acc.total, Amount::zero());
        assert!(!acc.locked);
    }
}

#[test]
fn single_tx_id_hammered() {
    let mut rng = Lcg(5);
    for _ in 0..500 {
        let mut acc = Account::new(1);
        let seed_amount = rng.range(1, 1000) as i64;
        apply_and_check(&mut acc, &msg(0, TransactionType::Deposit, 1, seed_amount));
        for i in 0..rng.range(1, 79) {
            let kind = random_kind(&mut rng);
            let amount = rng.range(0, 500) as i64;
            apply_and_check(&mut acc, &msg(i + 1, kind, 1, amount));
        }
    }
}

/// An account with a disputed and a charged-back transaction, as built by
/// ordinary operations.
fn busy_account() -> Account {
    let mut acc = Account::new(1);
    apply_and_check(&mut acc, &msg(0, TransactionType::Deposit, 1, 100));
    apply_and_check(&mut acc, &msg(1, TransactionType::Deposit, 2, 50));
    apply_and_check(&mut acc, &msg(2, TransactionType::Deposit, 3, 20));
    apply_and_check(&mut acc, &msg(3, TransactionType::Dispute, 1, 30));
    apply_and_check(&mut acc, &msg(4, TransactionType::Dispute, 2, 50));
    apply_and_check(&mut acc, &msg(5, TransactionType::Chargeback, 2, 50));
    assert!(acc.locked);
    acc
}

#[test]
fn check_rejects_negative_balances() {
    let mut acc = busy_account();
    acc.available = &acc.available - &Amount::from_major(200);
    acc.total = &acc.total - &Amount::from_major(200);
    assert!(acc.available < Amount::zero());
    assert!(!check_invariants(&acc));
}

#[test]
fn check_rejects_total_that_is_not_available_plus_held() {
    let mut acc = busy_account();
    acc.total = &acc.total + &Amount::from_scaled(1);
    assert!(!check_invariants(&acc));
}

#[test]
fn check_rejects_transaction_in_two_sets() {
    let mut acc = busy_account();
    acc.resolves.insert(3);
    assert!(!check_invariants(&acc));
}

#[test]
fn check_rejects_transaction_in_wrong_set() {
    let mut acc = busy_account();
    acc.normal.remove(&3);
    acc.resolves.insert(3);
    assert!(!check_invariants(&acc));
}

#[test]
fn check_rejects_state_set_member_that_is_not_recorded() {
    let mut acc = busy_account();
    acc.normal.insert(99);
    assert!(!check_invariants(&acc));
}

#[test]
fn check_rejects_recorded_state_that_disagrees_with_sets() {
    let mut acc = busy_account();
    if let Some(entry) = acc.transactions.get_mut(&3) {
        entry.0 = TransactionState::Resolved;
    }
    assert!(!check_invariants(&acc));
}

#[test]
fn check_rejects_held_amount_for_undisputed_transaction() {
    let mut acc = busy_account();
    acc.pending_disputes.insert(3, Amount::from_major(1));
    acc.held = &acc.held + &Amount::from_major(1);
    acc.total = &acc.total + &Amount::from_major(1);
    assert!(!check_invariants(&acc));
}

#[test]
fn check_rejects_non_positive_held_amount() {
    let mut acc = busy_account();
    acc.pending_disputes.insert(1, Amount::zero());
    acc.held = Amount::zero();
    acc.total = acc.available;
    assert!(!check_invariants(&acc));
}

#[test]
fn check_rejects_disputed_transaction_without_held_amount() {
    let mut acc = busy_account();
    acc.pending_disputes.remove(&1);
    acc.available = &acc.available + &acc.held;
    acc.held = Amount::zero();
    assert!(!check_invariants(&acc));
}

#[test]
fn check_rejects_held_that_is_not_the_sum_held_for_disputes() {
    let mut acc = busy_account();
    acc.held = &acc.held + &Amount::from_major(1);
    acc.available = &acc.available - &Amount::from_major(1);
    assert!(!check_invariants(&acc));
}

#[test]
fn check_rejects_lock_without_chargeback() {
    let mut acc = Account::new(1);
    apply_and_check(&mut acc, &msg(0, TransactionType::Deposit, 1, 10));
    acc.locked = true;
    assert!(!check_invariants(&acc));
}

#[test]
fn check_rejects_held_amounts_that_overflow() {
    let mut acc = Account::new(1);
    for tx in 1..=3u32 {
        acc.transactions.insert(
            tx,
            (TransactionState::Disputed, msg(0, TransactionType::Deposit, tx, 1)),
        );
        acc.disputes.insert(tx);
        acc.pending_disputes.insert(tx, Amount::from_scaled(i128::MAX / 2));
    }
    acc.held = Amount::from_scaled(i128::MAX);
    acc.total = Amount::from_scaled(i128::MAX);
    assert!(!check_invariants(&acc));
}

#[test]
fn random_ops_with_negative_amounts_never_violate_invariants() {
    let mut rng = Lcg(6);
    for _ in 0..500 {
        let mut acc = Account::new(1);
        for i in 0..rng.range(1, 99) {
            let kind = random_kind(&mut rng);
            let tx = rng.range(1, 10) as TransactionId;
            let amount = rng.range(0, 2000) as i64 - 1000;
            apply_and_check(&mut acc, &msg(i, kind, tx, amount));
        }
    }
}
