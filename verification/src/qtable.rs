//! The table of action values, kept in a hash map of the ahash crate.
//!
//! Verus does not look inside the map. What the map holds is named by
//! `table_entries`, and each operation on it states its effect on that
//! name.

use crate::qrow::QRow;
use ahash::AHashMap;
use vstd::prelude::*;

verus! {

/// `ahash::AHashMap`, a hash map with the hasher of the ahash crate.
#[verifier::external_type_specification]
#[verifier::external_body]
#[verifier::reject_recursive_types(K)]
#[verifier::reject_recursive_types(V)]
#[verifier::reject_recursive_types(S)]
pub struct ExAHashMap<K, V, S>(AHashMap<K, V, S>);

/// `ahash::RandomState`, the hasher that an `AHashMap` uses unless told
/// otherwise.
#[verifier::external_type_specification]
#[verifier::external_body]
pub struct ExRandomState(ahash::RandomState);

/// The entries of a table: the row stored under each state key.
pub uninterp spec fn table_entries(t: AHashMap<u32, QRow>) -> Map<u32, QRow>;

/// A table without entries.
pub open spec fn no_entries() -> Map<u32, QRow> {
    Map::empty()
}

/// What a lookup of `key` finds among `entries`.
pub open spec fn lookup(entries: Map<u32, QRow>, key: u32) -> Option<QRow> {
    if entries.contains_key(key) {
        Some(entries[key])
    } else {
        None
    }
}

/// Calls `AHashMap::new`, which makes an empty map.
#[verifier::external_body]
pub(crate) fn table_new() -> (t: AHashMap<u32, QRow>)
    ensures
        table_entries(t) == no_entries(),
{
    AHashMap::new()
}

/// Calls `AHashMap::get` and copies the row it finds: the row stored under
/// `key`, or `None` where the map has no such key.
#[verifier::external_body]
pub(crate) fn table_get(t: &AHashMap<u32, QRow>, key: u32) -> (r: Option<QRow>)
    ensures
        r == lookup(table_entries(*t), key),
{
    t.get(&key).copied()
}

/// Calls `AHashMap::insert`, which stores `row` under `key` in place of any
/// row stored there before and leaves the other entries alone.
#[verifier::external_body]
pub(crate) fn table_insert(t: &mut AHashMap<u32, QRow>, key: u32, row: QRow)
    ensures
        table_entries(*final(t)) == table_entries(*old(t)).insert(key, row),
{
    t.insert(key, row);
}

/// Walks the map's keys with `HashMap::keys`, which `AHashMap` hands
/// through, and collects them. Every key of the map comes once; the order
/// is the map's own and nothing is claimed of it.
#[verifier::external_body]
pub(crate) fn table_keys(t: &AHashMap<u32, QRow>) -> (keys: Vec<u32>)
    ensures
        keys@.no_duplicates(),
        keys@.to_set() == table_entries(*t).dom(),
{
    t.keys().copied().collect()
}

/// Calls `Clone::clone` of `AHashMap`, which copies every entry.
#[verifier::external_body]
pub(crate) fn table_clone(t: &AHashMap<u32, QRow>) -> (r: AHashMap<u32, QRow>)
    ensures
        table_entries(r) == table_entries(*t),
{
    t.clone()
}

} // verus!
