//! Hash tables with the FNV hasher.
//!
//! `fnv::FnvHashMap` and `fnv::FnvHashSet` are the standard tables built with
//! `BuildHasherDefault<FnvHasher>`. The verifier knows what a table holds
//! (its view, a `Map` or a `Set`), but it only knows what the table's methods
//! do for the standard hasher. The accessors below state it for FNV tables
//! whose keys are integers or tuples of integers: their hashing and equality
//! are the standard library's own, and `FnvHasher` is a pure function of the
//! bytes written to it. The contracts of the accessors are not proved: they
//! say what the documentation of the standard library says of the methods
//! they call.

use vstd::prelude::*;
use fnv::FnvHashMap;
use fnv::FnvHashSet;
use fnv::FnvHasher;
use std::hash::BuildHasherDefault;
use std::hash::Hash;

verus! {

/// `fnv::FnvHasher`, opaque to the verifier.
#[verifier::external_type_specification]
#[verifier::external_body]
pub struct ExFnvHasher(FnvHasher);

/// `std::hash::BuildHasherDefault`, opaque to the verifier.
#[verifier::external_type_specification]
#[verifier::external_body]
#[verifier::reject_recursive_types(H)]
pub struct ExBuildHasherDefault<H>(BuildHasherDefault<H>);

/// Keys made of integers only. Two such keys are `==` exactly when they are
/// the same value, and equal keys hash alike.
pub(crate) trait PlainKey: Eq + Hash {

}

impl PlainKey for u64 {

}

impl PlainKey for (i32, i32) {

}

impl PlainKey for (usize, usize) {

}

impl PlainKey for ((usize, usize), (usize, usize)) {

}

impl PlainKey for ((i32, i32), (u32, u32)) {

}

/// `std::collections::HashMap::get`: the value stored under `k`, if there is
/// one.
#[verifier::external_body]
pub(crate) fn map_get<'a, K: PlainKey, V>(m: &'a FnvHashMap<K, V>, k: &K) -> (found: Option<&'a V>)
    ensures
        found == (if m@.contains_key(*k) {
            Some(&m@[*k])
        } else {
            None
        }),
{
    m.get(k)
}

/// `std::collections::HashMap::get_mut`: mutable access to the value stored under `k`, if there
/// is one. Whatever the caller leaves in it is what the map holds under `k`
/// afterwards; nothing else changes.
#[verifier::external_body]
pub(crate) fn map_get_mut<'a, K: PlainKey, V>(m: &'a mut FnvHashMap<K, V>, k: &K) -> (found: Option<
    &'a mut V,
>)
    ensures
        match found {
            Some(v) => old(m)@.contains_key(*k) && *v == old(m)@[*k] && final(m)@ == old(m)@.insert(
                *k,
                *final(v),
            ),
            None => !old(m)@.contains_key(*k) && final(m)@ == old(m)@,
        },
{
    m.get_mut(k)
}

/// `std::collections::HashMap::insert`: stores `v` under `k` and returns what
/// was there before.
#[verifier::external_body]
pub(crate) fn map_insert<K: PlainKey, V>(m: &mut FnvHashMap<K, V>, k: K, v: V) -> (prev: Option<V>)
    ensures
        final(m)@ == old(m)@.insert(k, v),
        prev == (if old(m)@.contains_key(k) {
            Some(old(m)@[k])
        } else {
            None
        }),
{
    m.insert(k, v)
}

/// `std::collections::HashMap::remove`: takes out the entry under `k` and
/// returns its value.
#[verifier::external_body]
pub(crate) fn map_remove<K: PlainKey, V>(m: &mut FnvHashMap<K, V>, k: &K) -> (prev: Option<V>)
    ensures
        final(m)@ == old(m)@.remove(*k),
        prev == (if old(m)@.contains_key(*k) {
            Some(old(m)@[*k])
        } else {
            None
        }),
{
    m.remove(k)
}

/// `std::collections::HashMap::keys`, collected: every key of the map exactly
/// once, in no particular order.
#[verifier::external_body]
pub(crate) fn map_keys<V>(m: &FnvHashMap<u64, V>) -> (keys: Vec<u64>)
    ensures
        keys@.no_duplicates(),
        keys@.to_set() == m@.dom(),
{
    m.keys().copied().collect()
}

/// `std::collections::HashSet::insert`: adds `k` to the set, and says whether
/// it was new.
#[verifier::external_body]
pub(crate) fn set_insert<K: PlainKey>(s: &mut FnvHashSet<K>, k: K) -> (fresh: bool)
    ensures
        final(s)@ == old(s)@.insert(k),
        fresh == !old(s)@.contains(k),
{
    s.insert(k)
}

/// `std::collections::HashSet::contains`: whether `k` is in the set.
#[verifier::external_body]
pub(crate) fn set_contains<K: PlainKey>(s: &FnvHashSet<K>, k: &K) -> (found: bool)
    ensures
        found == s@.contains(*k),
{
    s.contains(k)
}

/// `std::collections::HashSet::iter`, collected: every element of the set
/// exactly once, in no particular order.
#[verifier::external_body]
pub(crate) fn set_elements<K: PlainKey + Copy>(s: &FnvHashSet<K>) -> (elements: Vec<K>)
    ensures
        elements@.no_duplicates(),
        elements@.to_set() == s@,
{
    s.iter().copied().collect()
}

/// What the first `i + 1` elements of a list hold is what the first `i` hold
/// and the next one. (Proved; it serves the loops that walk the elements
/// handed out above.)
pub(crate) proof fn lemma_take_to_set<K>(list: Seq<K>, i: int)
    requires
        0 <= i < list.len(),
    ensures
        list.take(i + 1).to_set() == list.take(i).to_set().insert(list[i]),
        i + 1 == list.len() ==> list.take(i + 1) == list,
{
    let head = list.take(i);
    let next = list.take(i + 1);
    assert forall|k: K| next.to_set().contains(k) <==> head.to_set().insert(list[i]).contains(
        k,
    ) by {
        if head.contains(k) {
            let j = choose|j: int| 0 <= j < head.len() && head[j] == k;
            assert(next[j] == k);
        }
        if k == list[i] {
            assert(next[i] == k);
        }
        if next.contains(k) {
            let j = choose|j: int| 0 <= j < next.len() && next[j] == k;
            if j < i {
                assert(head[j] == k);
            }
        }
    }
    assert(next.to_set() =~= head.to_set().insert(list[i]));
    if i + 1 == list.len() {
        assert(next =~= list);
    }
}

} // verus!
