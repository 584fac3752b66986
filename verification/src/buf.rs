//! Growing byte vectors with an exact account of their contents.

use vstd::prelude::*;

verus! {

/// Appends every byte of `s` to `v`.
pub fn append_bytes(v: &mut Vec<u8>, s: &[u8])
    ensures
        final(v)@ == old(v)@ + s@,
{
    let ghost start = v@;
    let n = s.len();
    let mut i: usize = 0;
    while i < n
        invariant
            n == s@.len(),
            i <= n,
            v@ == start + s@.subrange(0, i as int),
        decreases n - i,
    {
        v.push(s[i]);
        i = i + 1;
        assert(s@.subrange(0, i as int) =~= s@.subrange(0, (i - 1) as int).push(s@[i - 1]));
    }
    assert(s@.subrange(0, n as int) =~= s@);
}

/// A fresh vector holding exactly the bytes of `s`.
pub fn bytes_to_vec(s: &[u8]) -> (v: Vec<u8>)
    ensures
        v@ == s@,
{
    let mut v: Vec<u8> = Vec::with_capacity(s.len());
    append_bytes(&mut v, s);
    assert(v@ =~= s@);
    v
}

/// Whether two byte strings are equal.
pub fn bytes_eq(a: &[u8], b: &[u8]) -> (r: bool)
    ensures
        r == (a@ == b@),
{
    if a.len() != b.len() {
        return false;
    }
    let n = a.len();
    let mut i: usize = 0;
    while i < n
        invariant
            n == a@.len(),
            n == b@.len(),
            i <= n,
            forall|j: int| 0 <= j < i ==> a@[j] == b@[j],
        decreases n - i,
    {
        if a[i] != b[i] {
            return false;
        }
        i = i + 1;
    }
    assert(a@ =~= b@);
    true
}

/// Whether every byte of `a` is zero.
pub fn all_zero(a: &[u8]) -> (r: bool)
    ensures
        r == (forall|j: int| 0 <= j < a@.len() ==> a@[j] == 0),
{
    let n = a.len();
    let mut i: usize = 0;
    while i < n
        invariant
            n == a@.len(),
            i <= n,
            forall|j: int| 0 <= j < i ==> a@[j] == 0,
        decreases n - i,
    {
        if a[i] != 0 {
            return false;
        }
        i = i + 1;
    }
    true
}


/// The 8 bytes of `s` starting at `off`, as an array.
pub fn array8_at(s: &[u8], off: usize) -> (r: [u8; 8])
    requires
        off + 8 <= s@.len(),
    ensures
        r@ == s@.subrange(off as int, off + 8),
{
    let r = [s[off + 0], s[off + 1], s[off + 2], s[off + 3], s[off + 4], s[off + 5], s[off + 6], s[off + 7]];
    assert(r@ =~= s@.subrange(off as int, off + 8));
    r
}

/// The 32 bytes of `s` starting at `off`, as an array.
pub fn array32_at(s: &[u8], off: usize) -> (r: [u8; 32])
    requires
        off + 32 <= s@.len(),
    ensures
        r@ == s@.subrange(off as int, off + 32),
{
    let r = [s[off + 0], s[off + 1], s[off + 2], s[off + 3], s[off + 4], s[off + 5], s[off + 6], s[off + 7], s[off + 8], s[off + 9], s[off + 10], s[off + 11], s[off + 12], s[off + 13], s[off + 14], s[off + 15], s[off + 16], s[off + 17], s[off + 18], s[off + 19], s[off + 20], s[off + 21], s[off + 22], s[off + 23], s[off + 24], s[off + 25], s[off + 26], s[off + 27], s[off + 28], s[off + 29], s[off + 30], s[off + 31]];
    assert(r@ =~= s@.subrange(off as int, off + 32));
    r
}

/// The 64 bytes of `s` starting at `off`, as an array.
pub fn array64_at(s: &[u8], off: usize) -> (r: [u8; 64])
    requires
        off + 64 <= s@.len(),
    ensures
        r@ == s@.subrange(off as int, off + 64),
{
    let r = [s[off + 0], s[off + 1], s[off + 2], s[off + 3], s[off + 4], s[off + 5], s[off + 6], s[off + 7], s[off + 8], s[off + 9], s[off + 10], s[off + 11], s[off + 12], s[off + 13], s[off + 14], s[off + 15], s[off + 16], s[off + 17], s[off + 18], s[off + 19], s[off + 20], s[off + 21], s[off + 22], s[off + 23], s[off + 24], s[off + 25], s[off + 26], s[off + 27], s[off + 28], s[off + 29], s[off + 30], s[off + 31], s[off + 32], s[off + 33], s[off + 34], s[off + 35], s[off + 36], s[off + 37], s[off + 38], s[off + 39], s[off + 40], s[off + 41], s[off + 42], s[off + 43], s[off + 44], s[off + 45], s[off + 46], s[off + 47], s[off + 48], s[off + 49], s[off + 50], s[off + 51], s[off + 52], s[off + 53], s[off + 54], s[off + 55], s[off + 56], s[off + 57], s[off + 58], s[off + 59], s[off + 60], s[off + 61], s[off + 62], s[off + 63]];
    assert(r@ =~= s@.subrange(off as int, off + 64));
    r
}

} // verus!
