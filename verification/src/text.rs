//! Building text: lower-case hexadecimal and decimal renderings, written
//! character by character.

use vstd::prelude::*;
use vstd::utf8::encode_utf8;

verus! {

/// Appends `c` to `s`. Calls `String::push`, which adds the character at the
/// end and leaves the rest of the string as it was.
#[verifier::external_body]
pub fn push_char(s: &mut String, c: char)
    ensures
        final(s)@ == old(s)@.push(c),
{
    s.push(c)
}

/// Appends `t` to `s`. Calls `String::push_str`, which adds the characters
/// of `t` at the end and leaves the rest of the string as it was.
#[verifier::external_body]
pub fn push_str(s: &mut String, t: &str)
    ensures
        final(s)@ == old(s)@ + t@,
{
    s.push_str(t)
}

/// The lower-case hexadecimal digit of `n`, for `n < 16`.
pub open spec fn hex_digit_spec(n: u8) -> char {
    if n < 10 {
        ((n + 48) as u8) as char
    } else {
        ((n + 87) as u8) as char
    }
}

/// Two lower-case hexadecimal digits for each byte of `b`.
pub open spec fn hex_spec(b: Seq<u8>) -> Seq<char>
    decreases b.len(),
{
    if b.len() == 0 {
        Seq::empty()
    } else {
        hex_spec(b.drop_last()) + seq![hex_digit_spec(b.last() / 16), hex_digit_spec(b.last() % 16)]
    }
}

/// The decimal digit of `n`, for `n < 10`.
pub open spec fn dec_digit_spec(n: nat) -> char {
    ((n + 48) as u8) as char
}

/// The decimal rendering of `n`, without leading zeros.
pub open spec fn decimal_spec(n: nat) -> Seq<char>
    decreases n,
{
    if n < 10 {
        seq![dec_digit_spec(n)]
    } else {
        decimal_spec(n / 10).push(dec_digit_spec(n % 10))
    }
}

fn hex_digit(n: u8) -> (c: char)
    requires
        n < 16,
    ensures
        c == hex_digit_spec(n),
{
    match n {
        0 => '0',
        1 => '1',
        2 => '2',
        3 => '3',
        4 => '4',
        5 => '5',
        6 => '6',
        7 => '7',
        8 => '8',
        9 => '9',
        10 => 'a',
        11 => 'b',
        12 => 'c',
        13 => 'd',
        14 => 'e',
        _ => 'f',
    }
}

fn dec_digit(n: u64) -> (c: char)
    requires
        n < 10,
    ensures
        c == dec_digit_spec(n as nat),
{
    match n {
        0 => '0',
        1 => '1',
        2 => '2',
        3 => '3',
        4 => '4',
        5 => '5',
        6 => '6',
        7 => '7',
        8 => '8',
        _ => '9',
    }
}

/// The last `w` lower-case hexadecimal digits of `n`, zero-padded.
pub open spec fn hex_width_spec(n: nat, w: nat) -> Seq<char>
    decreases w,
{
    if w == 0 {
        Seq::empty()
    } else {
        hex_width_spec(n / 16, (w - 1) as nat).push(hex_digit_spec((n % 16) as u8))
    }
}

/// Appends the last `w` lower-case hexadecimal digits of `n`, zero-padded.
pub fn push_hex_width(s: &mut String, n: u64, w: u32)
    ensures
        final(s)@ == old(s)@ + hex_width_spec(n as nat, w as nat),
    decreases w,
{
    if w > 0 {
        push_hex_width(s, n / 16, w - 1);
        push_char(s, hex_digit((n % 16) as u8));
        proof {
            assert(old(s)@ + hex_width_spec(n as nat, w as nat) =~= (old(s)@ + hex_width_spec(
                (n / 16) as nat,
                (w - 1) as nat,
            )).push(hex_digit_spec((n % 16) as u8)));
        }
    } else {
        assert(old(s)@ + hex_width_spec(n as nat, 0) =~= old(s)@);
    }
}

/// Appends two lower-case hexadecimal digits for each byte of `b`.
pub fn push_hex(s: &mut String, b: &[u8])
    ensures
        final(s)@ == old(s)@ + hex_spec(b@),
{
    let ghost start = s@;
    let mut i: usize = 0;
    while i < b.len()
        invariant
            i <= b@.len(),
            s@ == start + hex_spec(b@.subrange(0, i as int)),
        decreases b@.len() - i,
    {
        let x = b[i];
        push_char(s, hex_digit(x / 16));
        push_char(s, hex_digit(x % 16));
        proof {
            let t = b@.subrange(0, i + 1);
            assert(t.drop_last() =~= b@.subrange(0, i as int));
            assert(t.last() == x);
        }
        i = i + 1;
    }
    assert(b@.subrange(0, b@.len() as int) =~= b@);
}

/// Appends the decimal rendering of `n`.
pub fn push_decimal(s: &mut String, n: u64)
    ensures
        final(s)@ == old(s)@ + decimal_spec(n as nat),
    decreases n,
{
    if n >= 10 {
        push_decimal(s, n / 10);
    }
    push_char(s, dec_digit(n % 10));
    proof {
        if n >= 10 {
            assert(old(s)@ + decimal_spec(n as nat) =~= (old(s)@ + decimal_spec((n / 10) as nat)).push(
                dec_digit_spec((n % 10) as nat),
            ));
        }
    }
}

/// Two hexadecimal digits per byte.
pub proof fn lemma_hex_len(b: Seq<u8>)
    ensures
        hex_spec(b).len() == 2 * b.len(),
    decreases b.len(),
{
    if b.len() > 0 {
        lemma_hex_len(b.drop_last());
    }
}

/// Different bytes give different hexadecimal text.
pub proof fn lemma_hex_injective(a: Seq<u8>, b: Seq<u8>)
    requires
        hex_spec(a) == hex_spec(b),
    ensures
        a == b,
    decreases a.len(),
{
    lemma_hex_len(a);
    lemma_hex_len(b);
    if a.len() > 0 {
        let (ha, hb) = (hex_spec(a.drop_last()), hex_spec(b.drop_last()));
        lemma_hex_len(a.drop_last());
        lemma_hex_len(b.drop_last());
        let n = ha.len() as int;
        assert(hex_spec(a).subrange(0, n) =~= ha);
        assert(hex_spec(b).subrange(0, n) =~= hb);
        lemma_hex_injective(a.drop_last(), b.drop_last());
        let (x, y) = (a.last(), b.last());
        assert(hex_spec(a)[n] == hex_digit_spec(x / 16));
        assert(hex_spec(b)[n] == hex_digit_spec(y / 16));
        assert(hex_spec(a)[n + 1] == hex_digit_spec(x % 16));
        assert(hex_spec(b)[n + 1] == hex_digit_spec(y % 16));
        assert(x / 16 == y / 16 && x % 16 == y % 16);
        assert(x == y);
        assert(a =~= a.drop_last().push(x));
        assert(b =~= b.drop_last().push(y));
    }
}

/// UTF-8 takes at most four bytes a character.
pub proof fn lemma_encode_utf8_len(chars: Seq<char>)
    ensures
        encode_utf8(chars).len() <= 4 * chars.len(),
    decreases chars.len(),
{
    if chars.len() > 0 {
        lemma_encode_utf8_len(chars.drop_first());
    }
}

/// Zero-padded hexadecimal has exactly the width asked for.
pub proof fn lemma_hex_width_len(n: nat, w: nat)
    ensures
        hex_width_spec(n, w).len() == w,
    decreases w,
{
    if w > 0 {
        lemma_hex_width_len(n / 16, (w - 1) as nat);
    }
}

} // verus!
