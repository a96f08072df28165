//! The concurrent maps behind the gateway: `dashmap::DashMap` carries the
//! route table (host to pool) and the managed-object index (uid to host and
//! watcher handle). Each map's contents are named as a `Map` keyed by the
//! string's characters, and every method the gateway calls is wrapped with
//! a contract over that name. The cloned values the getters return are
//! value-equal to the stored ones: every field is a `String`, a `Vec`, an
//! integer or an `Arc`, whose clones vstd itself specifies as equal.

use dashmap::DashMap;
use vstd::prelude::*;

use crate::pool::RoundRobinLoadBalancer;
use crate::watch::ManagedObject;

verus! {

#[verifier::external_type_specification]
#[verifier::external_body]
#[verifier::reject_recursive_types(K)]
#[verifier::reject_recursive_types(V)]
#[verifier::reject_recursive_types(S)]
pub struct ExDashMap<K, V, S>(DashMap<K, V, S>);

/// The concurrent map behind one route table.
pub type TableInner = DashMap<String, RoundRobinLoadBalancer>;

/// The concurrent map behind one managed-object index.
pub type IndexInner = DashMap<String, ManagedObject>;

/// What the route table holds, keyed by the host's characters.
pub uninterp spec fn table_map(m: TableInner) -> Map<
    Seq<char>,
    RoundRobinLoadBalancer,
>;

/// What the managed-object index holds, keyed by the uid's characters.
pub uninterp spec fn index_map(m: IndexInner) -> Map<Seq<char>, ManagedObject>;

/// The empty route-table contents.
pub open spec fn empty_table() -> Map<Seq<char>, RoundRobinLoadBalancer> {
    Map::empty()
}

/// The empty managed-index contents.
pub open spec fn empty_index() -> Map<Seq<char>, ManagedObject> {
    Map::empty()
}

/// Relies on dashmap::DashMap::new. What the fresh map holds is pinned
/// down by `table_clear`, which every construction calls next.
#[verifier::external_body]
pub(crate) fn table_new() -> TableInner {
    DashMap::new()
}

/// Relies on dashmap::DashMap::clear: removes every entry.
#[verifier::external_body]
pub(crate) fn table_clear(m: &mut TableInner)
    ensures
        table_map(*final(m)) == empty_table(),
{
    m.clear();
}

/// Relies on dashmap::DashMap::insert: the key now maps to the value;
/// nothing else changes.
#[verifier::external_body]
pub(crate) fn table_insert(
    m: &mut TableInner,
    k: &String,
    v: RoundRobinLoadBalancer,
)
    ensures
        table_map(*final(m)) == table_map(*old(m)).insert(k@, v),
{
    m.insert(k.clone(), v);
}

/// Relies on dashmap::DashMap::remove: the key leaves the map; nothing
/// else changes.
#[verifier::external_body]
pub(crate) fn table_remove(m: &mut TableInner, k: &String)
    ensures
        table_map(*final(m)) == table_map(*old(m)).remove(k@),
{
    m.remove(k);
}

/// Relies on dashmap::DashMap::alter: replaces the value under the key if
/// the key is present, and does nothing otherwise.
#[verifier::external_body]
pub(crate) fn table_replace_if_present(
    m: &mut TableInner,
    k: &String,
    v: RoundRobinLoadBalancer,
)
    ensures
        table_map(*final(m)) == if table_map(*old(m)).contains_key(k@) {
            table_map(*old(m)).insert(k@, v)
        } else {
            table_map(*old(m))
        },
{
    m.alter(k, |_, _| v);
}

/// Relies on dashmap::DashMap::get: returns a copy of the value under the
/// key, if the key is present.
#[verifier::external_body]
pub(crate) fn table_get(m: &TableInner, k: &String) -> (r: Option<
    RoundRobinLoadBalancer,
>)
    ensures
        r == if table_map(*m).contains_key(k@) {
            Some(table_map(*m)[k@])
        } else {
            None::<RoundRobinLoadBalancer>
        },
{
    m.get(k).map(|e| e.value().clone())
}

/// Relies on dashmap::DashMap::iter: yields each entry exactly once, as a
/// copy of its key and value.
#[verifier::external_body]
pub(crate) fn table_entries(m: &TableInner) -> (r: Vec<
    (String, RoundRobinLoadBalancer),
>)
    ensures
        forall|i: int|
            0 <= i < r@.len() ==> #[trigger] table_map(*m).contains_key(r@[i].0@) && table_map(*m)[r@[i].0@]
                == r@[i].1,
        forall|i: int, j: int| 0 <= i < j < r@.len() ==> r@[i].0@ != r@[j].0@,
        forall|k: Seq<char>| #[trigger] table_map(*m).contains_key(k) ==> exists|i: int|
            0 <= i < r@.len() && r@[i].0@ == k,
{
    let mut out = Vec::new();
    for e in m.iter() {
        out.push((e.key().clone(), e.value().clone()));
    }
    out
}

/// Relies on dashmap::DashMap::new. What the fresh map holds is pinned
/// down by `index_clear`, which every construction calls next.
#[verifier::external_body]
pub(crate) fn index_new() -> IndexInner {
    DashMap::new()
}

/// Relies on dashmap::DashMap::clear: removes every entry.
#[verifier::external_body]
pub(crate) fn index_clear(m: &mut IndexInner)
    ensures
        index_map(*final(m)) == empty_index(),
{
    m.clear();
}

/// Relies on dashmap::DashMap::insert: the key now maps to the value;
/// nothing else changes.
#[verifier::external_body]
pub(crate) fn index_insert(m: &mut IndexInner, k: &String, v: ManagedObject)
    ensures
        index_map(*final(m)) == index_map(*old(m)).insert(k@, v),
{
    m.insert(k.clone(), v);
}

/// Relies on dashmap::DashMap::remove: the key leaves the map; nothing
/// else changes.
#[verifier::external_body]
pub(crate) fn index_remove(m: &mut IndexInner, k: &String)
    ensures
        index_map(*final(m)) == index_map(*old(m)).remove(k@),
{
    m.remove(k);
}

/// Relies on dashmap::DashMap::get: returns a copy of the value under the
/// key, if the key is present.
#[verifier::external_body]
pub(crate) fn index_get(m: &IndexInner, k: &String) -> (r: Option<
    ManagedObject,
>)
    ensures
        r == if index_map(*m).contains_key(k@) {
            Some(index_map(*m)[k@])
        } else {
            None::<ManagedObject>
        },
{
    m.get(k).map(|e| {
        let v = e.value();
        ManagedObject {
            host: v.host.clone(),
            watcher_id: v.watcher_id,
            notify: v.notify.clone(),
        }
    })
}

/// Relies on dashmap::DashMap::iter: yields each entry exactly once, as a
/// copy of its key and value.
#[verifier::external_body]
pub(crate) fn index_entries(m: &IndexInner) -> (r: Vec<(String, ManagedObject)>)
    ensures
        forall|i: int|
            0 <= i < r@.len() ==> #[trigger] index_map(*m).contains_key(r@[i].0@) && index_map(*m)[r@[i].0@]
                == r@[i].1,
        forall|i: int, j: int| 0 <= i < j < r@.len() ==> r@[i].0@ != r@[j].0@,
        forall|k: Seq<char>| #[trigger] index_map(*m).contains_key(k) ==> exists|i: int|
            0 <= i < r@.len() && r@[i].0@ == k,
{
    let mut out = Vec::new();
    for e in m.iter() {
        let v = e.value();
        out.push((
            e.key().clone(),
            ManagedObject { host: v.host.clone(), watcher_id: v.watcher_id, notify: v.notify.clone() },
        ));
    }
    out
}

} // verus!
