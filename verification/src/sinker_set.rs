//! The registry of a partition's active sinkers: a concurrent map from
//! sinker id to presence.
use dashmap::DashMap;
use vstd::prelude::*;

verus! {

/// `dashmap::DashMap`, a concurrent hash map. Verus is told that the type
/// exists and nothing of what is inside it.
#[verifier::external_type_specification]
#[verifier::external_body]
#[verifier::reject_recursive_types(K)]
#[verifier::reject_recursive_types(V)]
#[verifier::reject_recursive_types(S)]
pub struct ExDashMap<K, V, S>(DashMap<K, V, S>);

/// A map from sinker id to presence.
pub type SinkerMap = DashMap<u32, bool>;

/// The entries of a map of sinkers.
pub uninterp spec fn sinker_entries(map: SinkerMap) -> Map<u32, bool>;

/// The map without entries.
pub open spec fn no_sinkers() -> Map<u32, bool> {
    Map::empty()
}

/// An empty map of sinkers.
///
/// Trusted: `DashMap::new`. The new map has no entry.
#[verifier::external_body]
pub(crate) fn sinkers_new() -> (sinkers: SinkerMap)
    ensures
        sinker_entries(sinkers) == no_sinkers(),
{
    DashMap::new()
}

/// Puts `sinker_id` into the map, with `present` as its value.
///
/// Trusted: `DashMap::insert`. Afterwards the key has the given value,
/// whether or not it had one, and all other entries are as before.
#[verifier::external_body]
pub(crate) fn sinkers_insert(map: &mut SinkerMap, sinker_id: u32, present: bool)
    ensures
        sinker_entries(*final(map)) == sinker_entries(*old(map)).insert(sinker_id, present),
{
    map.insert(sinker_id, present);
}

/// Takes `sinker_id` out of the map.
///
/// Trusted: `DashMap::remove`. Afterwards the key has no entry, and all
/// other entries are as before; a key without an entry changes nothing.
#[verifier::external_body]
pub(crate) fn sinkers_remove(map: &mut SinkerMap, sinker_id: u32)
    ensures
        sinker_entries(*final(map)) == sinker_entries(*old(map)).remove(sinker_id),
{
    map.remove(&sinker_id);
}

/// The number of entries.
///
/// Trusted: `DashMap::len`. The number of entries is returned.
#[verifier::external_body]
pub(crate) fn sinkers_len(map: &SinkerMap) -> (n: usize)
    ensures
        n == sinker_entries(*map).len(),
{
    map.len()
}

} // verus!
