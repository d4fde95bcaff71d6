//! The hash maps of the renderer, keyed by integers and hashed with
//! `fxhash`'s `FxHasher`, seen through their contents as a `Map`.
//!
//! `FxHasher` is deterministic (no per-process seed), so `std`'s `HashMap`
//! built on it behaves as a finite map from keys to values; only the order
//! in which `drain` hands entries out is unspecified.
use vstd::prelude::*;
use fxhash::{FxHashMap, FxHasher};
use std::hash::BuildHasherDefault;

verus! {

#[verifier::external_type_specification]
#[verifier::external_body]
pub struct ExFxHasher(FxHasher);

#[verifier::external_type_specification]
#[verifier::external_body]
#[verifier::reject_recursive_types(H)]
pub struct ExBuildHasherDefault<H>(BuildHasherDefault<H>);

/// `entries` lists every entry of `m` once, in some order.
pub open spec fn lists_entries<V>(entries: Seq<(u64, V)>, m: Map<u64, V>) -> bool {
    &&& m.dom().finite()
    &&& entries.len() == m.dom().len()
    &&& forall|i: int, j: int|
        0 <= i < j < entries.len() ==> #[trigger] entries[i].0 != #[trigger] entries[j].0
    &&& forall|i: int|
        0 <= i < entries.len() ==> m.contains_key(#[trigger] entries[i].0) && m[entries[i].0]
            == entries[i].1
    &&& forall|k: u64| m.contains_key(k) ==> exists|i: int| 0 <= i < entries.len() && #[trigger] entries[i].0 == k
}

/// `FxHashMap::default` (`HashMap::default` with `fxhash`'s hasher): an
/// empty map.
#[verifier::external_body]
pub(crate) fn fx_map_new<V>() -> (m: FxHashMap<u64, V>)
    ensures
        m@.dom() == Set::<u64>::empty(),
{
    FxHashMap::default()
}

/// `HashMap::insert` on an `FxHashMap`: the key now maps to `v`; the value
/// it mapped to before, if any, comes back.
#[verifier::external_body]
pub(crate) fn fx_map_insert<V>(m: &mut FxHashMap<u64, V>, k: u64, v: V) -> (r: Option<V>)
    ensures
        final(m)@ == old(m)@.insert(k, v),
        match r {
            Some(w) => old(m)@.contains_key(k) && w == old(m)@[k],
            None => !old(m)@.contains_key(k),
        },
{
    m.insert(k, v)
}

/// `HashMap::remove` on an `FxHashMap`: the key no longer maps to anything;
/// the value it mapped to, if any, comes back.
#[verifier::external_body]
pub(crate) fn fx_map_remove<V>(m: &mut FxHashMap<u64, V>, k: u64) -> (r: Option<V>)
    ensures
        final(m)@ == old(m)@.remove(k),
        match r {
            Some(w) => old(m)@.contains_key(k) && w == old(m)@[k],
            None => !old(m)@.contains_key(k),
        },
{
    m.remove(&k)
}

/// `HashMap::get` on an `FxHashMap`: the value the key maps to, if any.
#[verifier::external_body]
pub(crate) fn fx_map_get<V>(m: &FxHashMap<u64, V>, k: u64) -> (r: Option<&V>)
    ensures
        match r {
            Some(w) => m@.contains_key(k) && *w == m@[k],
            None => !m@.contains_key(k),
        },
{
    m.get(&k)
}

/// `HashMap::drain` on an `FxHashMap`, collected: every entry once, in an
/// order the hashes decide, which is not stated; the map is left empty.
#[verifier::external_body]
pub(crate) fn fx_map_drain<V>(m: &mut FxHashMap<u64, V>) -> (r: Vec<(u64, V)>)
    ensures
        final(m)@.dom() == Set::<u64>::empty(),
        lists_entries(r@, old(m)@),
{
    m.drain().collect()
}

} // verus!
