//! Fixed-width integers as byte strings, in both byte orders.

use vstd::prelude::*;

verus! {

/// The big-endian value of a byte string.
pub open spec fn be_value(s: Seq<u8>) -> nat
    decreases s.len(),
{
    if s.len() == 0 {
        0
    } else {
        be_value(s.drop_last()) * 256 + s.last() as nat
    }
}

/// The little-endian value of a byte string.
pub open spec fn le_value(s: Seq<u8>) -> nat
    decreases s.len(),
{
    if s.len() == 0 {
        0
    } else {
        le_value(s.drop_first()) * 256 + s.first() as nat
    }
}

/// The `n`-byte big-endian encoding of `x` (modulo `256^n`).
pub open spec fn be_bytes(x: nat, n: nat) -> Seq<u8>
    decreases n,
{
    if n == 0 {
        Seq::empty()
    } else {
        be_bytes(x / 256, (n - 1) as nat).push((x % 256) as u8)
    }
}

pub open spec fn pow256(n: nat) -> nat
    decreases n,
{
    if n == 0 {
        1
    } else {
        256 * pow256((n - 1) as nat)
    }
}

pub proof fn lemma_be_bytes_len(x: nat, n: nat)
    ensures
        be_bytes(x, n).len() == n,
    decreases n,
{
    if n > 0 {
        lemma_be_bytes_len(x / 256, (n - 1) as nat);
    }
}

pub proof fn lemma_pow256_pos(n: nat)
    ensures
        pow256(n) >= 1,
    decreases n,
{
    if n > 0 {
        lemma_pow256_pos((n - 1) as nat);
    }
}

/// Encoding a value that fits and reading it back gives the value.
pub proof fn lemma_be_value_of_bytes(x: nat, n: nat)
    requires
        x < pow256(n),
    ensures
        be_value(be_bytes(x, n)) == x,
    decreases n,
{
    lemma_be_bytes_len(x, n);
    if n > 0 {
        let m = (n - 1) as nat;
        assert(x / 256 < pow256(m)) by (nonlinear_arith)
            requires
                x < 256 * pow256(m),
        ;
        lemma_be_value_of_bytes(x / 256, m);
        let s = be_bytes(x, n);
        assert(s.drop_last() =~= be_bytes(x / 256, m));
        assert(s.last() == (x % 256) as u8);
        assert(x == (x / 256) * 256 + x % 256) by (nonlinear_arith);
    }
}

/// Reading a byte string and encoding the value back gives the bytes.
pub proof fn lemma_bytes_of_be_value(s: Seq<u8>)
    ensures
        be_bytes(be_value(s), s.len()) =~= s,
        be_value(s) < pow256(s.len()),
    decreases s.len(),
{
    if s.len() > 0 {
        let p = s.drop_last();
        lemma_bytes_of_be_value(p);
        let v = be_value(s);
        let l = s.last() as nat;
        assert(v == be_value(p) * 256 + l);
        assert(v / 256 == be_value(p) && v % 256 == l) by (nonlinear_arith)
            requires
                v == be_value(p) * 256 + l,
                l < 256,
        ;
        assert(pow256(s.len()) == 256 * pow256(p.len()));
        assert(v < pow256(s.len())) by (nonlinear_arith)
            requires
                v == be_value(p) * 256 + l,
                l < 256,
                be_value(p) < pow256(p.len()),
                pow256(s.len()) == 256 * pow256(p.len()),
        ;
        assert(be_bytes(v, s.len()) =~= be_bytes(be_value(p), p.len()).push(l as u8));
    }
}

pub proof fn lemma_be_value_2(s: Seq<u8>)
    requires
        s.len() == 2,
    ensures
        be_value(s) == s[0] as nat * 256 + s[1] as nat,
{
    let s1 = s.drop_last();
    assert(s1.drop_last().len() == 0);
    assert(be_value(s1.drop_last()) == 0);
    assert(s1.last() == s[0]);
    assert(be_value(s1) == s[0] as nat);
}

pub proof fn lemma_be_value_4(s: Seq<u8>)
    requires
        s.len() == 4,
    ensures
        be_value(s) == s[0] as nat * 16777216 + s[1] as nat * 65536 + s[2] as nat * 256
            + s[3] as nat,
{
    let s3 = s.drop_last();
    let s2 = s3.drop_last();
    let s1 = s2.drop_last();
    assert(s1.drop_last().len() == 0);
    assert(be_value(s1.drop_last()) == 0);
    assert(s1.last() == s[0]);
    assert(be_value(s1) == s[0] as nat);
    assert(be_value(s2) == s[0] as nat * 256 + s[1] as nat);
    assert(be_value(s3) == (s[0] as nat * 256 + s[1] as nat) * 256 + s[2] as nat);
}

/// Big-endian bytes of a `u32`.
pub fn u32_to_be(x: u32) -> (r: [u8; 4])
    ensures
        r@ == be_bytes(x as nat, 4),
{
    let r = [(x >> 24) as u8, (x >> 16) as u8, (x >> 8) as u8, x as u8];
    proof {
        reveal_with_fuel(be_bytes, 5);
        assert((x >> 24) as u8 == ((x as nat / 16777216) % 256) as u8) by (bit_vector);
        assert((x >> 16) as u8 == ((x as nat / 65536) % 256) as u8) by (bit_vector);
        assert((x >> 8) as u8 == ((x as nat / 256) % 256) as u8) by (bit_vector);
        assert(x as u8 == (x as nat % 256) as u8) by (bit_vector);
        let n = x as nat;
        assert(n / 256 / 256 == n / 65536) by (nonlinear_arith);
        assert(n / 256 / 256 / 256 == n / 16777216) by (nonlinear_arith);
        assert(r@ =~= be_bytes(x as nat, 4));
    }
    r
}

/// The `u32` whose big-endian bytes are `b`.
pub fn u32_from_be(b: &[u8]) -> (x: u32)
    requires
        b@.len() == 4,
    ensures
        x as nat == be_value(b@),
{
    proof {
        lemma_be_value_4(b@);
    }
    let x = ((b[0] as u32) << 24) | ((b[1] as u32) << 16) | ((b[2] as u32) << 8) | (b[3] as u32);
    let (b0, b1, b2, b3) = (b[0], b[1], b[2], b[3]);
    assert(((b0 as u32) << 24) | ((b1 as u32) << 16) | ((b2 as u32) << 8) | (b3 as u32)
        == b0 as nat * 16777216 + b1 as nat * 65536 + b2 as nat * 256 + b3 as nat) by (bit_vector);
    x
}

/// The little-endian value of eight bytes.
pub open spec fn le8_value(s: Seq<u8>) -> nat {
    s[0] as nat + s[1] as nat * 0x100 + s[2] as nat * 0x10000 + s[3] as nat * 0x1000000
        + s[4] as nat * 0x100000000 + s[5] as nat * 0x10000000000 + s[6] as nat
        * 0x1000000000000 + s[7] as nat * 0x100000000000000
}

/// The `u64` whose little-endian bytes are `b`.
pub fn u64_from_le(b: &[u8; 8]) -> (x: u64)
    ensures
        x as nat == le8_value(b@),
{
    let (b0, b1, b2, b3, b4, b5, b6, b7) = (b[0], b[1], b[2], b[3], b[4], b[5], b[6], b[7]);
    let x = (b0 as u64) | ((b1 as u64) << 8) | ((b2 as u64) << 16) | ((b3 as u64) << 24) | ((
    b4 as u64) << 32) | ((b5 as u64) << 40) | ((b6 as u64) << 48) | ((b7 as u64) << 56);
    assert((b0 as u64) | ((b1 as u64) << 8) | ((b2 as u64) << 16) | ((b3 as u64) << 24) | ((
    b4 as u64) << 32) | ((b5 as u64) << 40) | ((b6 as u64) << 48) | ((b7 as u64) << 56)
        == b0 as nat + b1 as nat * 0x100 + b2 as nat * 0x10000 + b3 as nat * 0x1000000 + b4 as nat
        * 0x100000000 + b5 as nat * 0x10000000000 + b6 as nat * 0x1000000000000 + b7 as nat
        * 0x100000000000000) by (bit_vector);
    x
}

/// The big-endian value of eight bytes.
pub open spec fn be8_value(s: Seq<u8>) -> nat {
    s[7] as nat + s[6] as nat * 0x100 + s[5] as nat * 0x10000 + s[4] as nat * 0x1000000
        + s[3] as nat * 0x100000000 + s[2] as nat * 0x10000000000 + s[1] as nat
        * 0x1000000000000 + s[0] as nat * 0x100000000000000
}

/// The big-endian bytes of a `u64`.
pub open spec fn be8_bytes(x: u64) -> Seq<u8> {
    seq![
        (x >> 56) as u8,
        (x >> 48) as u8,
        (x >> 40) as u8,
        (x >> 32) as u8,
        (x >> 24) as u8,
        (x >> 16) as u8,
        (x >> 8) as u8,
        x as u8,
    ]
}

/// Big-endian bytes of a `u64`.
pub fn u64_to_be(x: u64) -> (r: [u8; 8])
    ensures
        r@ == be8_bytes(x),
        be8_value(r@) == x,
{
    let r = [
        (x >> 56) as u8,
        (x >> 48) as u8,
        (x >> 40) as u8,
        (x >> 32) as u8,
        (x >> 24) as u8,
        (x >> 16) as u8,
        (x >> 8) as u8,
        x as u8,
    ];
    assert(r@ =~= be8_bytes(x));
    let (b0, b1, b2, b3, b4, b5, b6, b7) = (r[0], r[1], r[2], r[3], r[4], r[5], r[6], r[7]);
    assert(b0 == (x >> 56) as u8 && b1 == (x >> 48) as u8 && b2 == (x >> 40) as u8 && b3 == (x
        >> 32) as u8 && b4 == (x >> 24) as u8 && b5 == (x >> 16) as u8 && b6 == (x >> 8) as u8
        && b7 == x as u8 ==> b7 as nat + b6 as nat * 0x100 + b5 as nat * 0x10000 + b4 as nat
        * 0x1000000 + b3 as nat * 0x100000000 + b2 as nat * 0x10000000000 + b1 as nat
        * 0x1000000000000 + b0 as nat * 0x100000000000000 == x) by (bit_vector);
    r
}

/// The `u64` whose big-endian bytes are `b`.
pub fn u64_from_be(b: &[u8]) -> (x: u64)
    requires
        b@.len() == 8,
    ensures
        x as nat == be8_value(b@),
        be8_bytes(x) == b@,
{
    let (b0, b1, b2, b3, b4, b5, b6, b7) = (b[0], b[1], b[2], b[3], b[4], b[5], b[6], b[7]);
    let x = (b7 as u64) | ((b6 as u64) << 8) | ((b5 as u64) << 16) | ((b4 as u64) << 24) | ((
    b3 as u64) << 32) | ((b2 as u64) << 40) | ((b1 as u64) << 48) | ((b0 as u64) << 56);
    assert((b7 as u64) | ((b6 as u64) << 8) | ((b5 as u64) << 16) | ((b4 as u64) << 24) | ((
    b3 as u64) << 32) | ((b2 as u64) << 40) | ((b1 as u64) << 48) | ((b0 as u64) << 56)
        == b7 as nat + b6 as nat * 0x100 + b5 as nat * 0x10000 + b4 as nat * 0x1000000 + b3 as nat
        * 0x100000000 + b2 as nat * 0x10000000000 + b1 as nat * 0x1000000000000 + b0 as nat
        * 0x100000000000000) by (bit_vector);
    assert(x == (b7 as u64) | ((b6 as u64) << 8) | ((b5 as u64) << 16) | ((b4 as u64) << 24) | ((
    b3 as u64) << 32) | ((b2 as u64) << 40) | ((b1 as u64) << 48) | ((b0 as u64) << 56) ==> (x
        >> 56) as u8 == b0 && (x >> 48) as u8 == b1 && (x >> 40) as u8 == b2 && (x >> 32) as u8
        == b3 && (x >> 24) as u8 == b4 && (x >> 16) as u8 == b5 && (x >> 8) as u8 == b6 && x as u8
        == b7) by (bit_vector);
    assert(be8_bytes(x) =~= b@);
    x
}

/// Writing a `u64` big-endian and reading it back gives the value.
pub proof fn lemma_be8_round_trip(x: u64)
    ensures
        be8_value(be8_bytes(x)) == x,
        be8_bytes(x).len() == 8,
{
    let b = be8_bytes(x);
    let (b0, b1, b2, b3, b4, b5, b6, b7) = (b[0], b[1], b[2], b[3], b[4], b[5], b[6], b[7]);
    assert(b0 == (x >> 56) as u8 && b1 == (x >> 48) as u8 && b2 == (x >> 40) as u8 && b3 == (x
        >> 32) as u8 && b4 == (x >> 24) as u8 && b5 == (x >> 16) as u8 && b6 == (x >> 8) as u8
        && b7 == x as u8 ==> b7 as nat + b6 as nat * 0x100 + b5 as nat * 0x10000 + b4 as nat
        * 0x1000000 + b3 as nat * 0x100000000 + b2 as nat * 0x10000000000 + b1 as nat
        * 0x1000000000000 + b0 as nat * 0x100000000000000 == x) by (bit_vector);
}

/// Reading eight bytes big-endian and writing the value back gives the bytes.
pub proof fn lemma_be8_bytes_of_value(s: Seq<u8>)
    requires
        s.len() == 8,
    ensures
        be8_value(s) <= u64::MAX,
        be8_bytes(be8_value(s) as u64) == s,
{
    let (b0, b1, b2, b3, b4, b5, b6, b7) = (s[0], s[1], s[2], s[3], s[4], s[5], s[6], s[7]);
    assert(b7 as nat + b6 as nat * 0x100 + b5 as nat * 0x10000 + b4 as nat * 0x1000000 + b3 as nat
        * 0x100000000 + b2 as nat * 0x10000000000 + b1 as nat * 0x1000000000000 + b0 as nat
        * 0x100000000000000 <= 0xffff_ffff_ffff_ffff) by (bit_vector);
    let x: u64 = be8_value(s) as u64;
    assert(x == b7 as nat + b6 as nat * 0x100 + b5 as nat * 0x10000 + b4 as nat * 0x1000000 + b3 as nat
        * 0x100000000 + b2 as nat * 0x10000000000 + b1 as nat * 0x1000000000000 + b0 as nat
        * 0x100000000000000 ==> (x >> 56) as u8 == b0 && (x >> 48) as u8 == b1 && (x >> 40) as u8
        == b2 && (x >> 32) as u8 == b3 && (x >> 24) as u8 == b4 && (x >> 16) as u8 == b5 && (x
        >> 8) as u8 == b6 && x as u8 == b7) by (bit_vector);
    assert(be8_bytes(x) =~= s);
}

} // verus!
