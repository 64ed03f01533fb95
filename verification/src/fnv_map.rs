//! The hash maps of the ledger: `std::collections::HashMap` with the FNV
//! hasher of the `fnv` crate (`fnv::FnvHashMap`), with the calls that the
//! ledger makes on them.
use std::collections::HashMap;
use std::hash::Hash;
use vstd::prelude::*;
use vstd::std_specs::hash::obeys_key_model;

verus! {

/// The map type of the ledger and of each client's history.
pub type FnvMap<K, V> = fnv::FnvHashMap<K, V>;

#[verifier::external_type_specification]
#[verifier::external_body]
#[verifier::reject_recursive_types(H)]
pub struct ExBuildHasherDefault<H>(std::hash::BuildHasherDefault<H>);

#[verifier::external_type_specification]
#[verifier::external_body]
pub struct ExFnvHasher(fnv::FnvHasher);

/// `HashMap::insert`: afterwards the map sends `k` to `v` and is otherwise
/// unchanged; the value that `k` had before, if any, comes back.
#[verifier::external_body]
pub fn map_insert<K: Eq + Hash, V>(m: &mut FnvMap<K, V>, k: K, v: V) -> (r: Option<V>)
    requires
        obeys_key_model::<K>(),
    ensures
        final(m)@ == old(m)@.insert(k, v),
        r == old(m)@.get(k),
{
    m.insert(k, v)
}

/// `HashMap::get`: the value that the map holds for `k`, if any.
#[verifier::external_body]
pub fn map_get<'a, K: Eq + Hash, V>(m: &'a FnvMap<K, V>, k: &K) -> (r: Option<&'a V>)
    requires
        obeys_key_model::<K>(),
    ensures
        r is None <==> !m@.contains_key(*k),
        r matches Some(v) ==> m@.contains_key(*k) && *v == m@[*k],
{
    m.get(k)
}

/// `HashMap::contains_key`: whether the map holds a value for `k`.
#[verifier::external_body]
pub fn map_contains_key<K: Eq + Hash, V>(m: &FnvMap<K, V>, k: &K) -> (r: bool)
    requires
        obeys_key_model::<K>(),
    ensures
        r == m@.contains_key(*k),
{
    m.contains_key(k)
}

/// `HashMap::remove`: afterwards the map has no value for `k` and is
/// otherwise unchanged; the value that `k` had, if any, comes back.
#[verifier::external_body]
pub fn map_remove<K: Eq + Hash, V>(m: &mut FnvMap<K, V>, k: &K) -> (r: Option<V>)
    requires
        obeys_key_model::<K>(),
    ensures
        final(m)@ == old(m)@.remove(*k),
        r == old(m)@.get(*k),
{
    m.remove(k)
}

/// `HashMap::keys`, copied into a vector: every key of the map exactly
/// once, in the order in which the map is walked (which nothing here fixes).
#[verifier::external_body]
pub fn map_keys<K: Eq + Hash + Copy, V>(m: &FnvMap<K, V>) -> (r: Vec<K>)
    requires
        obeys_key_model::<K>(),
    ensures
        r@.no_duplicates(),
        r@.to_set() == m@.dom(),
{
    m.keys().copied().collect()
}

} // verus!
