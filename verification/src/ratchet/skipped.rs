//! The store of skipped message keys: an `indexmap::IndexMap` from
//! `(their DH public key, message number)` to a message key, kept behind one
//! trusted wrapper per method the ratchet calls. Its contents are named as the
//! sequence of entries in the map's own order.

use vstd::prelude::*;

use indexmap::IndexMap;

verus! {

#[verifier::external_type_specification]
#[verifier::external_body]
#[verifier::reject_recursive_types(K)]
#[verifier::reject_recursive_types(V)]
#[verifier::reject_recursive_types(S)]
pub struct ExIndexMap<K, V, S>(IndexMap<K, V, S>);

/// The map the ratchet keeps its skipped message keys in.
pub type SkippedKeys = IndexMap<([u8; 32], u32), [u8; 32]>;

/// One skipped key: `(their DH public key, message number, message key)`.
pub type SkipEntry = (Seq<u8>, u32, Seq<u8>);

/// The entries of a skipped-key map, in the map's order.
pub uninterp spec fn skipped_entries(m: SkippedKeys) -> Seq<SkipEntry>;

/// Whether some entry has the key `(dh, n)`.
pub open spec fn has_key(s: Seq<SkipEntry>, dh: Seq<u8>, n: u32) -> bool {
    exists|i: int| 0 <= i < s.len() && s[i].0 == dh && s[i].1 == n
}

/// The position of the entry with key `(dh, n)`.
pub open spec fn key_index(s: Seq<SkipEntry>, dh: Seq<u8>, n: u32) -> int {
    choose|i: int| 0 <= i < s.len() && s[i].0 == dh && s[i].1 == n
}

/// No key occurs twice.
pub open spec fn keys_unique(s: Seq<SkipEntry>) -> bool {
    forall|i: int, j: int|
        0 <= i < s.len() && 0 <= j < s.len() && i != j ==> !(s[i].0 == s[j].0 && s[i].1 == s[j].1)
}

/// Every public key and message key is 32 bytes.
pub open spec fn entries_sized(s: Seq<SkipEntry>) -> bool {
    forall|i: int| 0 <= i < s.len() ==> s[i].0.len() == 32 && s[i].2.len() == 32
}

/// `IndexMap::insert`: an existing key keeps its place and takes the new
/// value; a new key goes last.
pub open spec fn insert_spec(s: Seq<SkipEntry>, dh: Seq<u8>, n: u32, mk: Seq<u8>) -> Seq<SkipEntry> {
    if has_key(s, dh, n) {
        s.update(key_index(s, dh, n), (dh, n, mk))
    } else {
        s.push((dh, n, mk))
    }
}

/// `IndexMap::swap_remove` of the entry at `i`: the last entry takes its place.
pub open spec fn swap_remove_spec(s: Seq<SkipEntry>, i: int) -> Seq<SkipEntry> {
    s.update(i, s.last()).drop_last()
}

/// A new, empty map. Calls `IndexMap::new`.
#[verifier::external_body]
pub fn skipped_new() -> (m: SkippedKeys)
    ensures
        skipped_entries(m) == Seq::<SkipEntry>::empty(),
{
    IndexMap::new()
}

/// A new, empty map with room for `n` entries. Calls `IndexMap::with_capacity`.
#[verifier::external_body]
pub fn skipped_with_capacity(n: usize) -> (m: SkippedKeys)
    ensures
        skipped_entries(m) == Seq::<SkipEntry>::empty(),
{
    IndexMap::with_capacity(n)
}

/// The number of entries. Calls `IndexMap::len`.
#[verifier::external_body]
pub fn skipped_len(m: &SkippedKeys) -> (n: usize)
    ensures
        n == skipped_entries(*m).len(),
{
    m.len()
}

/// Inserts or updates `(dh, n) -> mk`. Calls `IndexMap::insert`.
#[verifier::external_body]
pub fn skipped_insert(m: &mut SkippedKeys, dh: [u8; 32], n: u32, mk: [u8; 32])
    ensures
        skipped_entries(*final(m)) == insert_spec(skipped_entries(*old(m)), dh@, n, mk@),
{
    m.insert((dh, n), mk);
}

/// Removes the entry with key `(dh, n)`, if any, returning its message key.
/// Calls `IndexMap::swap_remove`, which moves the last entry into the freed
/// place.
#[verifier::external_body]
pub fn skipped_swap_remove(m: &mut SkippedKeys, dh: &[u8; 32], n: u32) -> (r: Option<[u8; 32]>)
    ensures
        has_key(skipped_entries(*old(m)), dh@, n) ==> ({
            let s = skipped_entries(*old(m));
            let i = key_index(s, dh@, n);
            &&& r matches Some(mk) && mk@ == s[i].2
            &&& skipped_entries(*final(m)) == swap_remove_spec(s, i)
        }),
        !has_key(skipped_entries(*old(m)), dh@, n) ==> r is None && skipped_entries(*final(m))
            == skipped_entries(*old(m)),
{
    m.swap_remove(&(*dh, n))
}

/// Removes the first entry, if any, keeping the order of the rest. Calls
/// `IndexMap::shift_remove_index(0)`.
#[verifier::external_body]
pub fn skipped_remove_first(m: &mut SkippedKeys) -> (r: Option<[u8; 32]>)
    ensures
        skipped_entries(*old(m)).len() > 0 ==> ({
            let s = skipped_entries(*old(m));
            &&& r matches Some(mk) && mk@ == s[0].2
            &&& skipped_entries(*final(m)) == s.subrange(1, s.len() as int)
        }),
        skipped_entries(*old(m)).len() == 0 ==> r is None && skipped_entries(*final(m))
            == skipped_entries(*old(m)),
{
    m.shift_remove_index(0).map(|(_, mk)| mk)
}

/// Whether the key `(dh, n)` is present. Calls `IndexMap::contains_key`.
#[verifier::external_body]
pub fn skipped_contains(m: &SkippedKeys, dh: &[u8; 32], n: u32) -> (b: bool)
    ensures
        b == has_key(skipped_entries(*m), dh@, n),
{
    m.contains_key(&(*dh, n))
}

/// The entry at position `i`, copied out. Calls `IndexMap::get_index`.
#[verifier::external_body]
pub fn skipped_get(m: &SkippedKeys, i: usize) -> (e: ([u8; 32], u32, [u8; 32]))
    requires
        i < skipped_entries(*m).len(),
    ensures
        (e.0@, e.1, e.2@) == skipped_entries(*m)[i as int],
{
    let (k, v) = m.get_index(i).expect("index in range");
    (k.0, k.1, *v)
}

/// Replaces the message key of the entry at position `i`. Calls
/// `IndexMap::get_index_mut`.
#[verifier::external_body]
pub fn skipped_set_value(m: &mut SkippedKeys, i: usize, mk: [u8; 32])
    requires
        i < skipped_entries(*old(m)).len(),
    ensures
        skipped_entries(*final(m)) == skipped_entries(*old(m)).update(
            i as int,
            (skipped_entries(*old(m))[i as int].0, skipped_entries(*old(m))[i as int].1, mk@),
        ),
{
    if let Some((_, v)) = m.get_index_mut(i) {
        *v = mk;
    }
}

/// An independent copy with the same entries in the same order. Calls
/// `IndexMap::clone`.
#[verifier::external_body]
pub fn skipped_clone(m: &SkippedKeys) -> (c: SkippedKeys)
    ensures
        skipped_entries(c) == skipped_entries(*m),
{
    m.clone()
}

} // verus!
