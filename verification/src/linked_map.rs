//! Trusted boundary around `linked_hash_map::LinkedHashMap`, the
//! insertion-ordered map that backs the tracker.
//!
//! The map is kept abstract: `entries` names the sequence of key-value pairs
//! in iteration order, and each wrapper states over that name what the
//! crate's source shows of the method it calls.

use vstd::prelude::*;
use linked_hash_map::LinkedHashMap;

verus! {

#[verifier::external_type_specification]
#[verifier::external_body]
#[verifier::reject_recursive_types(K)]
#[verifier::reject_recursive_types(V)]
#[verifier::reject_recursive_types(S)]
pub struct ExLinkedHashMap<K, V, S>(LinkedHashMap<K, V, S>);

/// The key-value pairs held by the map, in iteration order (the order of
/// first insertion, except where a method states otherwise).
pub uninterp spec fn entries(m: LinkedHashMap<usize, i64>) -> Seq<(usize, i64)>;

/// Relies on `LinkedHashMap::new`: the new map is empty.
#[verifier::external_body]
pub(crate) fn lhm_new() -> (m: LinkedHashMap<usize, i64>)
    ensures
        entries(m) == Seq::<(usize, i64)>::empty(),
{
    LinkedHashMap::new()
}

/// Relies on `LinkedHashMap::len`: the number of stored pairs.
#[verifier::external_body]
pub(crate) fn lhm_len(m: &LinkedHashMap<usize, i64>) -> (n: usize)
    ensures
        n == entries(*m).len(),
{
    m.len()
}

/// Relies on `LinkedHashMap::insert`: a key not yet present is appended at
/// the back of the iteration order and `None` is returned; a key already
/// present is moved to the back, re-bound to the new value, and its old
/// value is returned.
#[verifier::external_body]
pub(crate) fn lhm_insert(m: &mut LinkedHashMap<usize, i64>, k: usize, v: i64) -> (r: Option<i64>)
    ensures
        (forall|i: int| 0 <= i < entries(*old(m)).len() ==> (#[trigger] entries(*old(m))[i]).0 != k)
            ==> entries(*final(m)) == entries(*old(m)).push((k, v)) && r is None,
        forall|i: int|
            0 <= i < entries(*old(m)).len() && (#[trigger] entries(*old(m))[i]).0 == k
                ==> entries(*final(m)) == entries(*old(m)).remove(i).push((k, v))
                    && r == Some(entries(*old(m))[i].1),
{
    m.insert(k, v)
}

/// Relies on `LinkedHashMap::get_mut`: it hands out the value stored under
/// the key and leaves the iteration order unchanged, so overwriting through
/// it re-binds the key in place.
#[verifier::external_body]
pub(crate) fn lhm_overwrite(m: &mut LinkedHashMap<usize, i64>, k: usize, v: i64)
    requires
        exists|i: int| 0 <= i < entries(*old(m)).len() && (#[trigger] entries(*old(m))[i]).0 == k,
    ensures
        forall|i: int|
            0 <= i < entries(*old(m)).len() && (#[trigger] entries(*old(m))[i]).0 == k
                ==> entries(*final(m)) == entries(*old(m)).update(i, (k, v)),
{
    *m.get_mut(&k).unwrap() = v;
}

/// Relies on `LinkedHashMap::get`: `Some` exactly when the key is stored,
/// with the value bound to it.
#[verifier::external_body]
pub(crate) fn lhm_get(m: &LinkedHashMap<usize, i64>, k: usize) -> (r: Option<i64>)
    ensures
        r matches Some(v) ==> exists|i: int|
            0 <= i < entries(*m).len() && #[trigger] entries(*m)[i] == (k, v),
        r is None ==> forall|i: int|
            0 <= i < entries(*m).len() ==> (#[trigger] entries(*m)[i]).0 != k,
{
    m.get(&k).copied()
}

/// Relies on `LinkedHashMap::clear`: it removes every pair.
#[verifier::external_body]
pub(crate) fn lhm_clear(m: &mut LinkedHashMap<usize, i64>)
    ensures
        entries(*final(m)) == Seq::<(usize, i64)>::empty(),
{
    m.clear()
}

/// Relies on `LinkedHashMap::iter`: it visits every pair in iteration order.
#[verifier::external_body]
pub(crate) fn lhm_pairs(m: &LinkedHashMap<usize, i64>) -> (r: Vec<(usize, i64)>)
    ensures
        r@ == entries(*m),
{
    m.iter().map(|(k, v)| (*k, *v)).collect()
}

} // verus!
