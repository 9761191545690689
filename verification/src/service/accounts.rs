//! The concurrent map of accounts that the service keeps, and the calls the
//! service makes on it.
//!
//! The map's own methods change it through a shared reference; the functions
//! here take a unique one wherever the contents change, so that each change
//! is visible in the contents that `dashmap_accounts` names.
use vstd::prelude::*;
use dashmap::DashMap;
use crate::domain::account::Account;
use crate::domain::transaction::ClientId;
use crate::message::OutputMessage;

verus! {

#[verifier::external_type_specification]
#[verifier::external_body]
#[verifier::reject_recursive_types(K)]
#[verifier::reject_recursive_types(V)]
#[verifier::reject_recursive_types(S)]
pub struct ExDashMap<K, V, S>(DashMap<K, V, S>);

/// The accounts that a map holds, by client.
pub uninterp spec fn dashmap_accounts(m: DashMap<ClientId, Account>) -> Map<ClientId, Account>;

/// `DashMap::new`: an empty map.
#[verifier::external_body]
pub(crate) fn accounts_new() -> (r: DashMap<ClientId, Account>)
    ensures
        dashmap_accounts(r) =~= Map::empty(),
{
    DashMap::new()
}

/// `DashMap::len`: the number of entries.
#[verifier::external_body]
pub(crate) fn accounts_len(m: &DashMap<ClientId, Account>) -> (n: usize)
    ensures
        n == dashmap_accounts(*m).len(),
{
    m.len()
}

/// `DashMap::remove`: takes the entry of `k` out of the map and hands it
/// back, or `None` where there is none.
#[verifier::external_body]
pub(crate) fn accounts_remove(m: &mut DashMap<ClientId, Account>, k: ClientId) -> (r: Option<
    (ClientId, Account),
>)
    ensures
        dashmap_accounts(*final(m)) == dashmap_accounts(*old(m)).remove(k),
        match r {
            Some(entry) => dashmap_accounts(*old(m)).contains_key(k) && entry.0 == k && entry.1
                == dashmap_accounts(*old(m))[k],
            None => !dashmap_accounts(*old(m)).contains_key(k),
        },
{
    m.remove(&k)
}

/// `DashMap::insert`: maps `k` to `v`, handing back the value it replaced.
#[verifier::external_body]
pub(crate) fn accounts_insert(m: &mut DashMap<ClientId, Account>, k: ClientId, v: Account) -> (r:
    Option<Account>)
    ensures
        dashmap_accounts(*final(m)) == dashmap_accounts(*old(m)).insert(k, v),
        match r {
            Some(prev) => dashmap_accounts(*old(m)).contains_key(k) && prev == dashmap_accounts(
                *old(m),
            )[k],
            None => !dashmap_accounts(*old(m)).contains_key(k),
        },
{
    m.insert(k, v)
}

/// `DashMap::get`: the snapshot of the account of `k`, if the map holds one.
#[verifier::external_body]
pub(crate) fn accounts_get(m: &DashMap<ClientId, Account>, k: ClientId) -> (r: Option<
    OutputMessage,
>)
    ensures
        match r {
            Some(out) => dashmap_accounts(*m).contains_key(k) && out.shows(
                dashmap_accounts(*m)[k]@,
            ),
            None => !dashmap_accounts(*m).contains_key(k),
        },
{
    m.get(&k).map(|entry| OutputMessage::from_account(entry.value()))
}

/// `DashMap::iter`: every entry once, in an order that the map's hashing
/// decides, each handed out as its key and the snapshot of its account.
#[verifier::external_body]
pub(crate) fn accounts_iter(m: &DashMap<ClientId, Account>) -> (r: Vec<(ClientId, OutputMessage)>)
    ensures
        r@.len() == dashmap_accounts(*m).len(),
        forall|i: int|
            0 <= i < r@.len() ==> dashmap_accounts(*m).contains_key(#[trigger] r@[i].0) && r@[i].1.shows(
                dashmap_accounts(*m)[r@[i].0]@,
            ),
        forall|i: int, j: int| 0 <= i < j < r@.len() ==> #[trigger] r@[i].0 != #[trigger] r@[j].0,
{
    m.iter().map(|entry| (*entry.key(), OutputMessage::from_account(entry.value()))).collect()
}

} // verus!
