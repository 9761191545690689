//! An executable check of everything an account promises to keep true:
//! balances, the agreement between recorded transactions and the four state
//! sets, the amounts held for disputes, and the lock.
use vstd::prelude::*;
use std::collections::HashSet;
use crate::domain::account::{
    ids_in, lemma_account_wf, lemma_pending_sum_insert, lemma_pending_sum_nonneg,
    lemma_pending_sum_remove, pending_sum, Account, TransactionState,
};
use crate::domain::account::law_balances_stay_non_negative;
use crate::domain::amount::{fits_i64, Amount};
use crate::message::InputMessage;
use crate::domain::transaction::TransactionId;
use vstd::std_specs::iter::IteratorSpec;

verus! {

broadcast use vstd::std_specs::hash::group_hash_axioms;

/// Whether the state set that belongs to state `st` holds `k`.
pub open spec fn in_set_of(a: &Account, k: TransactionId, st: TransactionState) -> bool {
    match st {
        TransactionState::Normal => a.normal@.contains(k),
        TransactionState::Disputed => a.disputes@.contains(k),
        TransactionState::Resolved => a.resolves@.contains(k),
        TransactionState::Chargeback => a.chargebacks@.contains(k),
    }
}

/// How many of the four state sets hold `k`.
pub open spec fn set_count(a: &Account, k: TransactionId) -> int {
    (if a.normal@.contains(k) { 1int } else { 0 }) + (if a.disputes@.contains(k) {
        1int
    } else {
        0
    }) + (if a.resolves@.contains(k) { 1int } else { 0 }) + (if a.chargebacks@.contains(k) {
        1int
    } else {
        0
    })
}

/// Every recorded transaction is in exactly one state set, the one of its
/// recorded state.
pub open spec fn recorded_in_own_set(a: &Account) -> bool {
    forall|k: TransactionId| #[trigger]
        a.transactions@.contains_key(k) ==> set_count(a, k) == 1 && in_set_of(
            a,
            k,
            a.transactions@[k].0,
        )
}

/// Every member of `s` is a recorded transaction of `a`.
pub open spec fn members_recorded(s: Set<TransactionId>, a: &Account) -> bool {
    forall|k: TransactionId| #[trigger] s.contains(k) ==> a.transactions@.contains_key(k)
}

/// No transaction is in both `x` and `y`.
pub open spec fn no_overlap(x: Set<TransactionId>, y: Set<TransactionId>) -> bool {
    forall|k: TransactionId| #[trigger] x.contains(k) ==> !y.contains(k)
}

/// Every amount held for a dispute is positive.
pub open spec fn pending_positive(a: &Account) -> bool {
    forall|k: TransactionId| #[trigger]
        a.pending_disputes@.contains_key(k) ==> a.pending_disputes@[k]@ > 0
}

/// Every transaction with an amount held for it is in the disputes set, with a
/// positive amount; every transaction of the disputes set has an amount held.
pub open spec fn pending_agrees_with_disputes(a: &Account) -> bool {
    &&& forall|k: TransactionId| #[trigger]
        a.pending_disputes@.contains_key(k) ==> a.disputes@.contains(k)
    &&& pending_positive(a)
    &&& forall|k: TransactionId| #[trigger]
        a.disputes@.contains(k) ==> a.pending_disputes@.contains_key(k)
}

/// Everything an account promises to keep true: the balances are not
/// negative and total is available plus held; each recorded transaction is in
/// exactly the state set of its state, each set holds only recorded
/// transactions, the sets do not overlap and their sizes add up to the number
/// of recorded transactions; the amounts held for disputes are positive,
/// belong to exactly the disputed transactions and add up to held; and a
/// locked account has a charged-back transaction.
pub open spec fn invariants_hold(a: &Account) -> bool {
    &&& a.available@ >= 0
    &&& a.held@ >= 0
    &&& a.total@ >= 0
    &&& a.total@ == a.available@ + a.held@
    &&& recorded_in_own_set(a)
    &&& members_recorded(a.normal@, a)
    &&& members_recorded(a.disputes@, a)
    &&& members_recorded(a.resolves@, a)
    &&& members_recorded(a.chargebacks@, a)
    &&& a.normal@.len() + a.disputes@.len() + a.resolves@.len() + a.chargebacks@.len()
        == a.transactions@.len()
    &&& no_overlap(a.normal@, a.disputes@)
    &&& no_overlap(a.normal@, a.resolves@)
    &&& no_overlap(a.normal@, a.chargebacks@)
    &&& no_overlap(a.disputes@, a.resolves@)
    &&& no_overlap(a.disputes@, a.chargebacks@)
    &&& no_overlap(a.resolves@, a.chargebacks@)
    &&& pending_agrees_with_disputes(a)
    &&& a.locked ==> !a.chargebacks@.is_empty()
    &&& a.held@ == pending_sum(a@.pending)
}

/// A sequence of references whose targets make up the set `d` holds a
/// reference to each member of `d`, and only to members of `d`.
proof fn lemma_refs_cover(s: Seq<&TransactionId>, d: Set<TransactionId>)
    requires
        s.unref().to_set() == d,
    ensures
        forall|k: TransactionId| #[trigger] d.contains(k) ==> s.contains(&k),
        forall|j: int| 0 <= j < s.len() ==> d.contains(*#[trigger] s[j]),
{
    assert forall|k: TransactionId| #[trigger] d.contains(k) implies s.contains(&k) by {
        assert(s.unref().contains(k));
        let j = choose|j: int| 0 <= j < s.unref().len() && s.unref()[j] == k;
        assert(s[j] == &k);
    }
    assert forall|j: int| 0 <= j < s.len() implies d.contains(*#[trigger] s[j]) by {
        assert(s.unref()[j] == *s[j]);
        assert(s.unref().contains(*s[j]));
    }
}

fn recorded_check(a: &Account) -> (ok: bool)
    ensures
        ok == recorded_in_own_set(a),
{
    let mut ok = true;
    proof {
        lemma_refs_cover(
            vstd::std_specs::hash::spec_keys_iter(&a.transactions).remaining(),
            a.transactions@.dom(),
        );
    }
    for k in it: a.transactions.keys()
        invariant
            forall|k: TransactionId| #[trigger]
                a.transactions@.contains_key(k) ==> it.seq().contains(&k),
            forall|j: int|
                0 <= j < it.seq().len() ==> a.transactions@.contains_key(*#[trigger] it.seq()[j]),
            ok == (forall|j: int|
                0 <= j < it.index() ==> set_count(a, *it.seq()[j]) == 1 && in_set_of(
                    a,
                    *it.seq()[j],
                    a.transactions@[*it.seq()[j]].0,
                )),
    {
        let n = a.normal.contains(k);
        let d = a.disputes.contains(k);
        let r = a.resolves.contains(k);
        let c = a.chargebacks.contains(k);
        let count: u8 = (if n { 1u8 } else { 0u8 }) + (if d { 1u8 } else { 0u8 }) + (if r {
            1u8
        } else {
            0u8
        }) + (if c { 1u8 } else { 0u8 });
        let st = match a.transactions.get(k) {
            Some(e) => e.0,
            None => TransactionState::Normal,
        };
        let matching = match st {
            TransactionState::Normal => n,
            TransactionState::Disputed => d,
            TransactionState::Resolved => r,
            TransactionState::Chargeback => c,
        };
        ok = ok && count == 1 && matching;
    }
    ok
}

/// Whether every member of `s` is a recorded transaction of `a`.
fn members_recorded_check(s: &HashSet<TransactionId>, a: &Account) -> (ok: bool)
    ensures
        ok == members_recorded(s@, a),
{
    let mut ok = true;
    proof {
        lemma_refs_cover(vstd::std_specs::hash::spec_hash_keys_iter(s).remaining(), s@);
    }
    for k in it: s.iter()
        invariant
            forall|k: TransactionId| #[trigger] s@.contains(k) ==> it.seq().contains(&k),
            forall|j: int| 0 <= j < it.seq().len() ==> s@.contains(*#[trigger] it.seq()[j]),
            ok == (forall|j: int|
                0 <= j < it.index() ==> a.transactions@.contains_key(*#[trigger] it.seq()[j])),
    {
        ok = ok && a.transactions.contains_key(k);
    }
    ok
}

/// Whether no member of `x` is in `y`.
fn no_overlap_check(x: &HashSet<TransactionId>, y: &HashSet<TransactionId>) -> (ok: bool)
    ensures
        ok == no_overlap(x@, y@),
{
    let mut ok = true;
    proof {
        lemma_refs_cover(vstd::std_specs::hash::spec_hash_keys_iter(x).remaining(), x@);
    }
    for k in it: x.iter()
        invariant
            forall|k: TransactionId| #[trigger] x@.contains(k) ==> it.seq().contains(&k),
            forall|j: int| 0 <= j < it.seq().len() ==> x@.contains(*#[trigger] it.seq()[j]),
            ok == (forall|j: int| 0 <= j < it.index() ==> !y@.contains(*#[trigger] it.seq()[j])),
    {
        ok = ok && !y.contains(k);
    }
    ok
}

/// Whether every disputed transaction has an amount held for it.
fn disputes_pending_check(a: &Account) -> (ok: bool)
    ensures
        ok == (forall|k: TransactionId| #[trigger]
            a.disputes@.contains(k) ==> a.pending_disputes@.contains_key(k)),
{
    let mut ok = true;
    proof {
        lemma_refs_cover(
            vstd::std_specs::hash::spec_hash_keys_iter(&a.disputes).remaining(),
            a.disputes@,
        );
    }
    for k in it: a.disputes.iter()
        invariant
            forall|k: TransactionId| #[trigger] a.disputes@.contains(k) ==> it.seq().contains(&k),
            forall|j: int|
                0 <= j < it.seq().len() ==> a.disputes@.contains(*#[trigger] it.seq()[j]),
            ok == (forall|j: int|
                0 <= j < it.index() ==> a.pending_disputes@.contains_key(
                    *#[trigger] it.seq()[j],
                )),
    {
        ok = ok && a.pending_disputes.contains_key(k);
    }
    ok
}

/// Whether every transaction with an amount held for it is disputed, with a
/// positive amount.
fn pending_entries_check(a: &Account) -> (ok: bool)
    ensures
        ok == (pending_positive(a) && forall|k: TransactionId| #[trigger]
            a.pending_disputes@.contains_key(k) ==> a.disputes@.contains(k)),
{
    let mut ok = true;
    proof {
        lemma_refs_cover(
            vstd::std_specs::hash::spec_keys_iter(&a.pending_disputes).remaining(),
            a.pending_disputes@.dom(),
        );
    }
    for k in it: a.pending_disputes.keys()
        invariant
            forall|k: TransactionId| #[trigger]
                a.pending_disputes@.contains_key(k) ==> it.seq().contains(&k),
            forall|j: int|
                0 <= j < it.seq().len() ==> a.pending_disputes@.contains_key(
                    *#[trigger] it.seq()[j],
                ),
            ok == (forall|j: int|
                0 <= j < it.index() ==> a.disputes@.contains(*#[trigger] it.seq()[j])
                    && a.pending_disputes@[*it.seq()[j]]@ > 0),
    {
        let positive = match a.pending_disputes.get(k) {
            Some(v) => v.scaled() > 0,
            None => false,
        };
        ok = ok && a.disputes.contains(k) && positive;
    }
    ok
}

/// The amounts of the first `n` entries of `s`, by transaction.
pub open spec fn prefix_amounts(s: Seq<(&TransactionId, &Amount)>, n: int) -> Map<
    TransactionId,
    int,
>
    decreases n,
{
    if n <= 0 {
        Map::empty()
    } else {
        prefix_amounts(s, n - 1).insert(*s[n - 1].0, s[n - 1].1@)
    }
}

/// The entries of `s` are entries of `m`, each once, so the first `n` of
/// them map distinct transactions to their amounts in `m`.
proof fn lemma_prefix_amounts(s: Seq<(&TransactionId, &Amount)>, n: int, m: Map<TransactionId, Amount>)
    requires
        0 <= n <= s.len(),
        s.no_duplicates(),
        forall|i: int|
            0 <= i < s.len() ==> m.contains_key(*#[trigger] s[i].0) && m[*s[i].0] == *s[i].1,
    ensures
        prefix_amounts(s, n).dom().finite(),
        forall|k: TransactionId| #[trigger]
            prefix_amounts(s, n).contains_key(k) ==> m.contains_key(k) && prefix_amounts(s, n)[k]
                == m[k]@,
        forall|i: int| 0 <= i < n ==> prefix_amounts(s, n).contains_key(*#[trigger] s[i].0),
        forall|i: int| n <= i < s.len() ==> !prefix_amounts(s, n).contains_key(*#[trigger] s[i].0),
    decreases n,
{
    if n > 0 {
        lemma_prefix_amounts(s, n - 1, m);
        assert forall|i: int| n <= i < s.len() implies !prefix_amounts(s, n).contains_key(
            *#[trigger] s[i].0,
        ) by {
            if *s[i].0 == *s[n - 1].0 {
                assert(s[i] == s[n - 1]);
            }
        }
    }
}

/// A part of a map of positive amounts adds up to no more than the whole.
proof fn lemma_pending_sum_part(q: Map<TransactionId, int>, p: Map<TransactionId, int>)
    requires
        p.dom().finite(),
        q.dom().subset_of(p.dom()),
        forall|k: TransactionId| #[trigger] q.contains_key(k) ==> q[k] == p[k],
        forall|k: TransactionId| #[trigger] p.contains_key(k) ==> p[k] > 0,
    ensures
        pending_sum(q) <= pending_sum(p),
    decreases p.dom().len(),
{
    vstd::set_lib::lemma_set_subset_finite(p.dom(), q.dom());
    if q.dom() =~= p.dom() {
        assert(q =~= p);
    } else {
        let k = choose|k: TransactionId| p.contains_key(k) && !q.contains_key(k);
        lemma_pending_sum_remove(p, k);
        lemma_pending_sum_part(q, p.remove(k));
    }
}

/// Whether held is the sum of the amounts held for disputes; exact when
/// those amounts are positive.
fn held_sum_check(a: &Account) -> (ok: bool)
    ensures
        pending_positive(a) ==> (ok == (a.held@ == pending_sum(a@.pending))),
{
    let ghost m = a.pending_disputes@;
    let held = a.held.scaled();
    let mut sum: i128 = 0;
    proof {
        assert(a@.pending.dom() =~= m.dom());
        let s = vstd::std_specs::hash::spec_hash_map_iter(&a.pending_disputes).remaining();
        assert(prefix_amounts(s, 0) =~= Map::<TransactionId, int>::empty());
    }
    for e in it: a.pending_disputes.iter()
        invariant
            m == a.pending_disputes@,
            held == a.held@,
            m.dom().finite(),
            a@.pending.dom() == m.dom(),
            it.seq().no_duplicates(),
            it.seq().len() == m.dom().len(),
            forall|i: int|
                0 <= i < it.seq().len() ==> m.contains_key(*#[trigger] it.seq()[i].0)
                    && m[*it.seq()[i].0] == *it.seq()[i].1,
            forall|k: TransactionId| #[trigger] m.contains_key(k) ==> it.seq().contains((&k, &m[k])),
            sum == pending_sum(prefix_amounts(it.seq(), it.index())),
            forall|i: int| 0 <= i < it.index() ==> (#[trigger] it.seq()[i]).1@ > 0,
    {
        let ghost s = it.seq();
        let ghost i = it.index();
        proof {
            lemma_prefix_amounts(s, i, m);
            lemma_pending_sum_insert(prefix_amounts(s, i), *s[i].0, s[i].1@);
        }
        let v = e.1.scaled();
        if v <= 0 {
            return false;
        }
        match sum.checked_add(v) {
            Some(t) => {
                sum = t;
            },
            None => {
                proof {
                    if pending_positive(a) {
                        lemma_prefix_amounts(s, i + 1, m);
                        assert(prefix_amounts(s, i + 1) == prefix_amounts(s, i).insert(
                            *s[i].0,
                            s[i].1@,
                        ));
                        assert(pending_sum(prefix_amounts(s, i + 1)) == sum + v);
                        assert forall|k: TransactionId| #[trigger]
                            a@.pending.contains_key(k) implies a@.pending[k] > 0 by {
                            assert(a.pending_disputes@.contains_key(k));
                        }
                        lemma_pending_sum_part(prefix_amounts(s, i + 1), a@.pending);
                    }
                }
                return false;
            },
        }
    }
    proof {
        let s = vstd::std_specs::hash::spec_hash_map_iter(&a.pending_disputes).remaining();
        lemma_prefix_amounts(s, s.len() as int, m);
        assert forall|k: TransactionId| #[trigger] m.contains_key(k) implies prefix_amounts(
            s,
            s.len() as int,
        ).contains_key(k) by {
            let j = choose|j: int| 0 <= j < s.len() && s[j] == (&k, &m[k]);
            assert(*s[j].0 == k);
        }
        assert(prefix_amounts(s, s.len() as int) =~= a@.pending);
    }
    held == sum
}

/// Checks everything an account promises to keep true, and says whether all
/// of it holds.
pub fn check_invariants(a: &Account) -> (ok: bool)
    ensures
        ok == invariants_hold(a),
{
    let available = a.available.scaled();
    let held = a.held.scaled();
    let total = a.total.scaled();
    let adds_up = match available.checked_add(held) {
        Some(s) => s == total,
        None => false,
    };
    let balances = available >= 0 && held >= 0 && total >= 0 && adds_up;
    let sizes = (a.normal.len() as u128) + (a.disputes.len() as u128) + (a.resolves.len() as u128)
        + (a.chargebacks.len() as u128) == (a.transactions.len() as u128);
    let recorded = recorded_check(a) && members_recorded_check(&a.normal, a)
        && members_recorded_check(&a.disputes, a) && members_recorded_check(&a.resolves, a)
        && members_recorded_check(&a.chargebacks, a);
    let disjoint = no_overlap_check(&a.normal, &a.disputes) && no_overlap_check(
        &a.normal,
        &a.resolves,
    ) && no_overlap_check(&a.normal, &a.chargebacks) && no_overlap_check(
        &a.disputes,
        &a.resolves,
    ) && no_overlap_check(&a.disputes, &a.chargebacks) && no_overlap_check(
        &a.resolves,
        &a.chargebacks,
    );
    let pending = pending_entries_check(a) && disputes_pending_check(a);
    let lock = !a.locked || !a.chargebacks.is_empty();
    let held_ok = pending && held_sum_check(a);
    balances && sizes && recorded && disjoint && pending && lock && held_ok
}

/// The four state sets of a map of transaction states partition its
/// transactions, so their sizes add up to the number of transactions.
proof fn lemma_state_sets_partition(states: Map<TransactionId, TransactionState>)
    requires
        states.dom().finite(),
    ensures
        ids_in(states, TransactionState::Normal).len() + ids_in(
            states,
            TransactionState::Disputed,
        ).len() + ids_in(states, TransactionState::Resolved).len() + ids_in(
            states,
            TransactionState::Chargeback,
        ).len() == states.dom().len(),
{
    let n = ids_in(states, TransactionState::Normal);
    let d = ids_in(states, TransactionState::Disputed);
    let r = ids_in(states, TransactionState::Resolved);
    let c = ids_in(states, TransactionState::Chargeback);
    vstd::set_lib::lemma_set_subset_finite(states.dom(), n);
    vstd::set_lib::lemma_set_subset_finite(states.dom(), d);
    vstd::set_lib::lemma_set_subset_finite(states.dom(), r);
    vstd::set_lib::lemma_set_subset_finite(states.dom(), c);
    assert(n.disjoint(d));
    vstd::set_lib::lemma_set_disjoint_lens(n, d);
    assert((n + d).disjoint(r));
    vstd::set_lib::lemma_set_disjoint_lens(n + d, r);
    assert((n + d + r).disjoint(c));
    vstd::set_lib::lemma_set_disjoint_lens(n + d + r, c);
    assert(n + d + r + c =~= states.dom());
}

/// A well-formed account passes the check exactly when its available and
/// total balances are not negative: everything else the check looks at is
/// kept by every operation, for every input.
pub proof fn law_well_formed_account_passes_check(a: &Account)
    requires
        a.wf(),
    ensures
        invariants_hold(a) <==> (a.available@ >= 0 && a.total@ >= 0),
{
    lemma_account_wf(a);
    let st = a@.states;
    lemma_pending_sum_nonneg(a@.pending);
    assert(a.transactions@.dom() =~= st.dom());
    lemma_state_sets_partition(st);
    assert forall|k: TransactionId| #[trigger]
        a.transactions@.contains_key(k) implies set_count(a, k) == 1 && in_set_of(
        a,
        k,
        a.transactions@[k].0,
    ) by {
        assert(st[k] == a.transactions@[k].0);
    }
    assert forall|k: TransactionId| #[trigger]
        a.pending_disputes@.contains_key(k) implies a.pending_disputes@[k]@ > 0
        && a.disputes@.contains(k) by {
        assert(a@.pending.contains_key(k));
    }
    assert forall|k: TransactionId| #[trigger]
        a.disputes@.contains(k) implies a.pending_disputes@.contains_key(k) by {
        assert(a@.pending.contains_key(k));
    }
    if a.locked {
        let k = choose|k: TransactionId| #[trigger]
            st.contains_key(k) && st[k] == TransactionState::Chargeback;
        assert(a.chargebacks@.contains(k));
    }
}

/// An account that passes the check still passes it after every operation,
/// whatever its amount and outcome.
pub proof fn law_check_survives_every_operation(
    before: &Account,
    after: &Account,
    msg: InputMessage,
)
    requires
        before.wf(),
        after.wf(),
        after@ == before@.apply(msg),
        fits_i64(msg.amount@),
        invariants_hold(before),
    ensures
        invariants_hold(after),
{
    law_well_formed_account_passes_check(before);
    law_balances_stay_non_negative(before@, msg);
    law_well_formed_account_passes_check(after);
}

} // verus!
