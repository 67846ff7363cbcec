//! The concurrent hash map of the `dashmap` crate, as far as the heap uses
//! it: a map from 32-bit keys to machine words.
//!
//! The map is opaque to the verifier. What it holds has a name,
//! [`map_entries`], and each function below is one call into the crate whose
//! contract says, over that name, what the crate's source shows of the call.
//! These contracts are taken on trust. The functions that change the map take
//! it by unique reference, so that nothing else can change it meanwhile.

use dashmap::DashMap;
use vstd::prelude::*;

verus! {

#[verifier::external_type_specification]
#[verifier::external_body]
#[verifier::reject_recursive_types(K)]
#[verifier::reject_recursive_types(V)]
#[verifier::reject_recursive_types(S)]
pub struct ExDashMap<K, V, S>(DashMap<K, V, S>);

/// The keys that a map holds, each with its value.
pub uninterp spec fn map_entries(map: DashMap<u32, usize>) -> Map<u32, usize>;

/// The map that holds nothing.
pub open spec fn no_entries() -> Map<u32, usize> {
    Map::empty()
}

/// `DashMap::with_capacity`: a map that holds nothing yet. The outside
/// function rounds the capacity up and hands it to its tables, which is safe
/// for the small capacities admitted here.
#[verifier::external_body]
pub(crate) fn map_with_capacity(capacity: usize) -> (table: DashMap<u32, usize>)
    requires
        capacity <= 0xffff,
    ensures
        map_entries(table) == no_entries(),
{
    DashMap::with_capacity(capacity)
}

/// `DashMap::insert`: puts `value` under `key`, in place of the value that
/// was there, and returns the value that was there.
#[verifier::external_body]
pub(crate) fn map_insert(map: &mut DashMap<u32, usize>, key: u32, value: usize) -> (previous:
    Option<usize>)
    ensures
        map_entries(*final(map)) == map_entries(*old(map)).insert(key, value),
        previous == if map_entries(*old(map)).contains_key(key) {
            Some(map_entries(*old(map))[key])
        } else {
            None
        },
{
    map.insert(key, value)
}

/// `DashMap::get`: the value under `key`, if the map holds the key.
#[verifier::external_body]
pub(crate) fn map_get(map: &DashMap<u32, usize>, key: u32) -> (value: Option<usize>)
    ensures
        value == if map_entries(*map).contains_key(key) {
            Some(map_entries(*map)[key])
        } else {
            None
        },
{
    match map.get(&key) {
        Some(entry) => Some(*entry.value()),
        None => None,
    }
}

/// `DashMap::remove`: takes `key` out of the map and returns the value that
/// was under it.
#[verifier::external_body]
pub(crate) fn map_remove(map: &mut DashMap<u32, usize>, key: u32) -> (previous: Option<usize>)
    ensures
        map_entries(*final(map)) == map_entries(*old(map)).remove(key),
        previous == if map_entries(*old(map)).contains_key(key) {
            Some(map_entries(*old(map))[key])
        } else {
            None
        },
{
    match map.remove(&key) {
        Some(pair) => Some(pair.1),
        None => None,
    }
}

/// `DashMap::iter`: every key of the map with its value, each key once. The
/// order is the map's own and differs from run to run, so nothing is said
/// of it.
#[verifier::external_body]
pub(crate) fn map_pairs(map: &DashMap<u32, usize>) -> (pairs: Vec<(u32, usize)>)
    ensures
        forall|i: int|
            0 <= i < pairs@.len() ==> map_entries(*map).contains_key(#[trigger] pairs@[i].0)
                && map_entries(*map)[pairs@[i].0] == pairs@[i].1,
        forall|i: int, j: int| 0 <= i < j < pairs@.len() ==> pairs@[i].0 != pairs@[j].0,
        forall|key: u32|
            map_entries(*map).contains_key(key) ==> exists|i: int|
                0 <= i < pairs@.len() && #[trigger] pairs@[i].0 == key,
{
    map.iter().map(|entry| (*entry.key(), *entry.value())).collect()
}

} // verus!
