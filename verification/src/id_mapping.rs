//! The local memory of the global id mapping.
//!
//! Names are mapped to ids by a store that all nodes share. A node keeps
//! what it has learned in a concurrent map, so that it asks the store for a
//! name only once.
use dashmap::DashMap;
use vstd::prelude::*;

verus! {

/// A map from name to id.
pub type IdMap = DashMap<String, u32>;

/// The entries of a map of ids, each name as its characters.
pub uninterp spec fn id_entries(map: IdMap) -> Map<Seq<char>, u32>;

/// The map without entries.
pub open spec fn no_ids() -> Map<Seq<char>, u32> {
    Map::empty()
}

/// The id that `entries` holds for `name`, if it holds one.
pub open spec fn id_of(entries: Map<Seq<char>, u32>, name: Seq<char>) -> Option<u32> {
    if entries.contains_key(name) {
        Some(entries[name])
    } else {
        None
    }
}

/// An empty map of ids.
///
/// Trusted: `DashMap::new`. The new map has no entry.
#[verifier::external_body]
fn ids_new() -> (ids: IdMap)
    ensures
        id_entries(ids) == no_ids(),
{
    DashMap::new()
}

/// The id that the map holds for `name`.
///
/// Trusted: `DashMap::get`, and `Ref::value` of what it finds. The value of
/// the key's entry is returned, and nothing where the key has no entry.
#[verifier::external_body]
fn ids_get(map: &IdMap, name: &str) -> (id: Option<u32>)
    ensures
        id == id_of(id_entries(*map), name@),
{
    match map.get(name) {
        Some(entry) => Some(*entry.value()),
        None => None,
    }
}

/// Puts `name` into the map, with `id` as its value.
///
/// Trusted: `DashMap::insert`. Afterwards the key has the given value,
/// whether or not it had one, and all other entries are as before.
#[verifier::external_body]
fn ids_insert(map: &mut IdMap, name: &str, id: u32)
    ensures
        id_entries(*final(map)) == id_entries(*old(map)).insert(name@, id),
{
    map.insert(name.to_string(), id);
}

/// The number of entries.
///
/// Trusted: `DashMap::len`. The number of entries is returned.
#[verifier::external_body]
fn ids_len(map: &IdMap) -> (n: usize)
    ensures
        n == id_entries(*map).len(),
{
    map.len()
}

/// What a node remembers of the id mapping.
pub struct IDMapping {
    /// The names that were learned, each with its id.
    mapping: IdMap,
}

impl View for IDMapping {
    type V = Map<Seq<char>, u32>;

    closed spec fn view(&self) -> Map<Seq<char>, u32> {
        id_entries(self.mapping)
    }
}

impl IDMapping {
    /// The mapping's invariant: it holds finitely many names.
    pub closed spec fn wf(&self) -> bool {
        id_entries(self.mapping).dom().finite()
    }

    /// The number of names that the node has learned.
    pub open spec fn count(&self) -> nat {
        self@.len()
    }

    /// A mapping that remembers nothing: it holds no name, so every name is
    /// still to be asked for.
    pub fn new() -> (mapping: Self)
        ensures
            mapping.wf(),
            mapping@ == Map::<Seq<char>, u32>::empty(),
            mapping.count() == 0,
    {
        IDMapping { mapping: ids_new() }
    }

    /// The id of `name`, if the node has learned it.
    pub fn get_cached_id(&self, name: &str) -> (id: Option<u32>)
        requires
            self.wf(),
        ensures
            id == id_of(self@, name@),
    {
        ids_get(&self.mapping, name)
    }

    /// Remembers that `name` has the id `id`. What was remembered of
    /// `name` before is forgotten.
    pub fn remember(&mut self, name: &str, id: u32)
        requires
            old(self).wf(),
        ensures
            final(self).wf(),
            final(self)@ == old(self)@.insert(name@, id),
    {
        ids_insert(&mut self.mapping, name, id);
    }

    /// The number of names that the node has learned.
    pub fn len(&self) -> (n: usize)
        ensures
            n == self.count(),
    {
        ids_len(&self.mapping)
    }
}

} // verus!
