//! Access to `rustc_hash::FxHashMap` tables keyed by integer IDs and by
//! grid cell coordinates.
//!
//! Each function makes one call into the map and states what that call
//! does to the map's contents, viewed as a `Map` from key to value. Keys
//! are integers or tuples of integers, whose `==` and `Hash` are the
//! structural ones, so equal keys in the map are equal values.
use vstd::prelude::*;
use rustc_hash::{FxBuildHasher, FxHashMap};

verus! {

#[verifier::external_type_specification]
#[verifier::external_body]
pub struct ExFxBuildHasher(FxBuildHasher);

/// Key types whose equality is equality of their values: `u32` IDs and
/// `(i32, i32, i32)` grid cells.
pub(crate) trait PlainKey: Eq + core::hash::Hash {}

impl PlainKey for u32 {}

impl PlainKey for (i32, i32, i32) {}

/// Calls `FxHashMap::default()`: the map it returns is empty.
#[verifier::external_body]
pub(crate) fn fx_new<K: PlainKey, V>() -> (m: FxHashMap<K, V>)
    ensures
        m@.dom() == Set::<K>::empty(),
{
    FxHashMap::default()
}

/// Calls `FxHashMap::contains_key`: whether `k` has an entry.
#[verifier::external_body]
pub(crate) fn fx_contains<K: PlainKey, V>(m: &FxHashMap<K, V>, k: K) -> (r: bool)
    ensures
        r == m@.contains_key(k),
{
    m.contains_key(&k)
}

/// Calls `FxHashMap::get`: the value stored under `k`, if any.
#[verifier::external_body]
pub(crate) fn fx_get<K: PlainKey, V>(m: &FxHashMap<K, V>, k: K) -> (r: Option<&V>)
    ensures
        match r {
            Some(v) => m@.contains_key(k) && *v == m@[k],
            None => !m@.contains_key(k),
        },
{
    m.get(&k)
}

/// Calls `FxHashMap::insert`: afterwards `k` maps to `v` and every other
/// entry is unchanged; the previous value under `k`, if any, is returned.
#[verifier::external_body]
pub(crate) fn fx_insert<K: PlainKey, V>(m: &mut FxHashMap<K, V>, k: K, v: V) -> (r: Option<V>)
    ensures
        final(m)@ == old(m)@.insert(k, v),
        match r {
            Some(prev) => old(m)@.contains_key(k) && prev == old(m)@[k],
            None => !old(m)@.contains_key(k),
        },
{
    m.insert(k, v)
}

/// Calls `FxHashMap::remove`: the value stored under `k`, if any, is
/// returned and its entry is gone from the map.
#[verifier::external_body]
pub(crate) fn fx_remove<K: PlainKey, V>(m: &mut FxHashMap<K, V>, k: K) -> (r: Option<V>)
    ensures
        final(m)@ == old(m)@.remove(k),
        match r {
            Some(v) => old(m)@.contains_key(k) && v == old(m)@[k],
            None => !old(m)@.contains_key(k),
        },
{
    m.remove(&k)
}

/// Calls `FxHashMap::len`: the number of keys in the map.
#[verifier::external_body]
pub(crate) fn fx_len<K: PlainKey, V>(m: &FxHashMap<K, V>) -> (r: usize)
    ensures
        r == m@.len(),
{
    m.len()
}

/// Calls `FxHashMap::clear`: the map is empty afterwards.
#[verifier::external_body]
pub(crate) fn fx_clear<K: PlainKey, V>(m: &mut FxHashMap<K, V>)
    ensures
        final(m)@.dom() == Set::<K>::empty(),
{
    m.clear();
}

/// Calls `FxHashMap::keys` and collects the keys: each key of the map
/// appears exactly once, in an order the hasher decides.
#[verifier::external_body]
pub(crate) fn fx_keys<K: PlainKey + Copy, V>(m: &FxHashMap<K, V>) -> (r: Vec<K>)
    ensures
        r@.no_duplicates(),
        r@.to_set() == m@.dom(),
{
    m.keys().copied().collect()
}

} // verus!
