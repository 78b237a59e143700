//! Handle tables, kept in `sharded_slab::Slab`, and the model that the pools
//! reason about: a map from the keys in use to the values stored under them.

use sharded_slab::Slab;
use vstd::prelude::*;

verus! {

/// A table of open handles. It holds a `sharded_slab::Slab`, whose
/// declaration names a trait that the verifier does not know, so the table is
/// opaque and known only through `handle_entries`. The slab is changed
/// through exclusive references only, which makes its content a function of
/// the calls made on it.
#[verifier::external_body]
pub struct HandleTable {
    slab: Slab<u64>,
}

/// The keys in use and the value stored under each.
pub uninterp spec fn handle_entries(table: HandleTable) -> Map<usize, u64>;

/// `Slab::new`: a table with no key in use.
#[verifier::external_body]
pub(crate) fn handles_new() -> (table: HandleTable)
    ensures
        handle_entries(table) == (Map::<usize, u64>::empty()),
{
    HandleTable { slab: Slab::new() }
}

/// `Slab::insert`: stores the value under a key that was not in use and
/// returns that key, or returns `None` and stores nothing when the table has
/// no room. Which key is chosen is left open; it depends on the calling
/// thread. The slab gives up where more threads have used slabs than its
/// configuration allows.
#[verifier::external_body]
pub(crate) fn handles_insert(table: &mut HandleTable, value: u64) -> (key: Option<usize>)
    ensures
        match key {
            Some(k) => !handle_entries(*old(table)).contains_key(k) && handle_entries(
                *final(table),
            ) == handle_entries(*old(table)).insert(k, value),
            None => handle_entries(*final(table)) == handle_entries(*old(table)),
        },
{
    table.slab.insert(value)
}

/// `Slab::get`: a copy of the value stored under `key`, if the key is in use.
#[verifier::external_body]
pub(crate) fn handles_get(table: &HandleTable, key: usize) -> (value: Option<u64>)
    ensures
        value == (if handle_entries(*table).contains_key(key) {
            Some(handle_entries(*table)[key])
        } else {
            None
        }),
{
    table.slab.get(key).map(|entry| *entry)
}

/// `Slab::remove`: frees `key` and tells whether it was in use.
#[verifier::external_body]
pub(crate) fn handles_remove(table: &mut HandleTable, key: usize) -> (removed: bool)
    ensures
        removed == handle_entries(*old(table)).contains_key(key),
        handle_entries(*final(table)) == handle_entries(*old(table)).remove(key),
{
    table.slab.remove(key)
}

} // verus!
