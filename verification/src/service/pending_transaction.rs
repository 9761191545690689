//! Buffered transactions and the order in which a batch processes them.
use vstd::prelude::*;
use core::cmp::Ordering;
use crate::message::{law_precedes_is_lexicographic, precedes, priority_order, same_position, InputMessage};

verus! {

/// A buffered transaction awaiting processing, paired with the handle on
/// which its outcome is reported.
pub struct PendingTransaction<C> {
    /// The transaction message to process.
    pub message: Box<InputMessage>,
    /// Where the transaction result is sent back to the caller.
    pub callback: C,
}

impl<C> PartialEq for PendingTransaction<C> {
    fn eq(&self, other: &Self) -> (r: bool) {
        *self.message == *other.message
    }
}

impl<C> vstd::std_specs::cmp::PartialEqSpecImpl for PendingTransaction<C> {
    open spec fn obeys_eq_spec() -> bool {
        true
    }

    open spec fn eq_spec(&self, other: &Self) -> bool {
        same_position(*self.message, *other.message)
    }
}

impl<C> Eq for PendingTransaction<C> {

}

impl<C> PartialOrd for PendingTransaction<C> {
    fn partial_cmp(&self, other: &Self) -> (r: Option<Ordering>) {
        (*self.message).partial_cmp(&*other.message)
    }
}

impl<C> vstd::std_specs::cmp::PartialOrdSpecImpl for PendingTransaction<C> {
    open spec fn obeys_partial_cmp_spec() -> bool {
        true
    }

    open spec fn partial_cmp_spec(&self, other: &Self) -> Option<Ordering> {
        priority_order(*self.message, *other.message)
    }
}

/// The position of the transaction that a batch processes first: the oldest
/// message (earliest in chrono order, then client, then transaction ID),
/// and among equally placed ones the earliest buffered.
pub open spec fn oldest_index<C>(s: Seq<PendingTransaction<C>>) -> int
    decreases s.len(),
{
    if s.len() <= 1 {
        0
    } else {
        let j = oldest_index(s.drop_last());
        if precedes(*s.last().message, *s[j].message) {
            s.len() - 1
        } else {
            j
        }
    }
}

/// `oldest_index` names a buffered transaction that no other one precedes.
pub proof fn lemma_oldest_index<C>(s: Seq<PendingTransaction<C>>)
    requires
        s.len() > 0,
    ensures
        0 <= oldest_index(s) < s.len(),
        forall|j: int| 0 <= j < s.len() ==> !precedes(*s[j].message, *s[oldest_index(s)].message),
    decreases s.len(),
{
    if s.len() > 1 {
        let t = s.drop_last();
        lemma_oldest_index(t);
        let j = oldest_index(t);
        let o = oldest_index(s);
        assert forall|k: int| 0 <= k < s.len() implies !precedes(
            *s[k].message,
            *s[o].message,
        ) by {
            if k < s.len() - 1 {
                assert(s[k] == t[k]);
                assert(!precedes(*t[k].message, *t[j].message));
            }
        }
    }
}

/// The order in which a batch processes the transactions of buffer `s`:
/// repeatedly the oldest of those that are left.
pub open spec fn processing_order<C>(s: Seq<PendingTransaction<C>>) -> Seq<PendingTransaction<C>>
    decreases s.len(),
{
    if s.len() == 0 {
        Seq::empty()
    } else {
        let i = oldest_index(s);
        proof {
            lemma_oldest_index(s);
        }
        seq![s[i]] + processing_order(s.remove(i))
    }
}

/// A batch processes each buffered transaction exactly once: the processing
/// order is a permutation of the buffer.
pub proof fn law_processing_order_is_permutation<C>(s: Seq<PendingTransaction<C>>)
    ensures
        processing_order(s).to_multiset() =~= s.to_multiset(),
    decreases s.len(),
{
    broadcast use vstd::seq_lib::group_to_multiset_ensures;
    broadcast use vstd::multiset::group_multiset_axioms;

    if s.len() > 0 {
        lemma_oldest_index(s);
        let o = oldest_index(s);
        let t = s.remove(o);
        law_processing_order_is_permutation(t);
        let rest = processing_order(t);
        assert(processing_order(s) =~= rest.insert(0, s[o]));
        vstd::seq_lib::to_multiset_insert(rest, 0, s[o]);
        assert(s.contains(s[o]));
        assert(s.to_multiset().count(s[o]) > 0);
        assert(s.to_multiset().remove(s[o]).insert(s[o]) =~= s.to_multiset());
    }
}

/// A batch processes its transactions oldest first: no transaction is
/// processed after one that it precedes.
pub proof fn law_processing_order_is_oldest_first<C>(s: Seq<PendingTransaction<C>>)
    ensures
        forall|i: int, j: int|
            0 <= i < j < processing_order(s).len() ==> !precedes(
                *(#[trigger] processing_order(s)[j]).message,
                *(#[trigger] processing_order(s)[i]).message,
            ),
    decreases s.len(),
{
    broadcast use vstd::seq_lib::group_to_multiset_ensures;

    if s.len() > 0 {
        lemma_oldest_index(s);
        let o = oldest_index(s);
        let t = s.remove(o);
        law_processing_order_is_oldest_first(t);
        law_processing_order_is_permutation(t);
        let rest = processing_order(t);
        let order = processing_order(s);
        assert(order =~= seq![s[o]] + rest);
        assert forall|i: int, j: int| 0 <= i < j < order.len() implies !precedes(
            *(#[trigger] order[j]).message,
            *(#[trigger] order[i]).message,
        ) by {
            if i == 0 {
                let x = rest[j - 1];
                assert(rest.contains(x));
                assert(rest.to_multiset().count(x) > 0);
                assert(t.contains(x));
                let idx = choose|idx: int| 0 <= idx < t.len() && t[idx] == x;
                if idx < o {
                    assert(t[idx] == s[idx]);
                } else {
                    assert(t[idx] == s[idx + 1]);
                }
            } else {
                assert(order[i] == rest[i - 1] && order[j] == rest[j - 1]);
            }
        }
    }
}

/// A batch applies its transactions in ascending chrono order, which is the
/// order of the input; among equal chrono orders, in ascending client ID,
/// then transaction ID.
pub proof fn law_batch_runs_in_chrono_order<C>(s: Seq<PendingTransaction<C>>)
    ensures
        forall|i: int, j: int|
            0 <= i < j < processing_order(s).len() ==> (#[trigger] processing_order(s)[i]).message.chrono_order
                <= (#[trigger] processing_order(s)[j]).message.chrono_order,
        forall|i: int, j: int|
            0 <= i < j < processing_order(s).len() && (#[trigger] processing_order(s)[i]).message.chrono_order
                == (#[trigger] processing_order(s)[j]).message.chrono_order
                ==> processing_order(s)[i].message.client_id <= processing_order(s)[j].message.client_id,
        forall|i: int, j: int|
            0 <= i < j < processing_order(s).len() && (#[trigger] processing_order(s)[i]).message.chrono_order
                == (#[trigger] processing_order(s)[j]).message.chrono_order
                && processing_order(s)[i].message.client_id == processing_order(s)[j].message.client_id
                ==> processing_order(s)[i].message.transaction_id <= processing_order(
                s,
            )[j].message.transaction_id,
{
    let order = processing_order(s);
    law_processing_order_is_oldest_first(s);
    assert forall|i: int, j: int| 0 <= i < j < order.len() implies (#[trigger] order[i]).message.chrono_order
        <= (#[trigger] order[j]).message.chrono_order && (order[i].message.chrono_order
        == order[j].message.chrono_order ==> order[i].message.client_id
        <= order[j].message.client_id) && (order[i].message.chrono_order
        == order[j].message.chrono_order && order[i].message.client_id
        == order[j].message.client_id ==> order[i].message.transaction_id
        <= order[j].message.transaction_id) by {
        assert(!precedes(*order[j].message, *order[i].message));
        law_precedes_is_lexicographic(*order[j].message, *order[i].message);
    }
}

/// The messages of a sequence of buffered transactions.
pub open spec fn messages_of<C>(s: Seq<PendingTransaction<C>>) -> Seq<InputMessage> {
    s.map_values(|p: PendingTransaction<C>| *p.message)
}

/// Takes the transaction that a batch processes first out of the buffer.
pub fn take_oldest<C>(buffer: &mut Vec<PendingTransaction<C>>) -> (p: PendingTransaction<C>)
    requires
        old(buffer)@.len() > 0,
    ensures
        p == old(buffer)@[oldest_index(old(buffer)@)],
        final(buffer)@ == old(buffer)@.remove(oldest_index(old(buffer)@)),
{
    let mut best: usize = 0;
    let mut i: usize = 1;
    while i < buffer.len()
        invariant
            1 <= i <= buffer@.len(),
            buffer@ == old(buffer)@,
            best == oldest_index(buffer@.take(i as int)),
            best < i,
        decreases buffer@.len() - i,
    {
        let ghost t = buffer@.take(i as int + 1);
        assert(t.drop_last() =~= buffer@.take(i as int));
        if buffer[i].message.precedes(&buffer[best].message) {
            best = i;
        }
        i = i + 1;
    }
    assert(buffer@.take(i as int) =~= buffer@);
    buffer.remove(best)
}

} // verus!
