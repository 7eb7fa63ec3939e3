//! The tables in which the event loop keeps what it still owes an answer:
//! `dashmap`'s `DashMap`, from the number of a query, request or listener to
//! the number of the reply sink that waits for it.

use dashmap::DashMap;
use std::collections::hash_map::RandomState;
use vstd::prelude::*;

verus! {

/// `dashmap`'s `DashMap`. Verus does not see inside it: what a table holds is
/// known by `table_entries`, and changes only as the functions of this file
/// say.
#[verifier::external_type_specification]
#[verifier::external_body]
#[verifier::reject_recursive_types(K)]
#[verifier::reject_recursive_types(V)]
#[verifier::reject_recursive_types(S)]
pub struct ExDashMap<K, V, S>(DashMap<K, V, S>);

/// A table of waiting sinks.
pub type Pending = DashMap<u64, u64, RandomState>;

/// What a table holds: the sink that waits under each number.
pub uninterp spec fn table_entries(table: DashMap<u64, u64, RandomState>) -> Map<u64, u64>;

/// `DashMap::new`: an empty table.
#[verifier::external_body]
pub(crate) fn table_new() -> (table: Pending)
    ensures
        (table_entries(table) == Map::<u64, u64>::empty()),
{
    DashMap::new()
}

/// `DashMap::insert`: `sink` waits under `id` from now on; the sink that
/// waited there before, if any, is handed back.
#[verifier::external_body]
pub(crate) fn table_insert(table: &mut Pending, id: u64, sink: u64) -> (displaced: Option<u64>)
    ensures
        table_entries(*final(table)) == table_entries(*old(table)).insert(id, sink),
        displaced == if table_entries(*old(table)).contains_key(id) {
            Some(table_entries(*old(table))[id])
        } else {
            None
        },
{
    table.insert(id, sink)
}

/// `DashMap::remove`: the sink that waited under `id`, if any, is taken out
/// and handed over.
#[verifier::external_body]
pub(crate) fn table_remove(table: &mut Pending, id: u64) -> (sink: Option<u64>)
    ensures
        table_entries(*final(table)) == table_entries(*old(table)).remove(id),
        sink == if table_entries(*old(table)).contains_key(id) {
            Some(table_entries(*old(table))[id])
        } else {
            None
        },
{
    table.remove(&id).map(|entry| entry.1)
}

} // verus!
