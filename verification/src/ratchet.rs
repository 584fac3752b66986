//! The Double Ratchet (Signal specification).
//!
//! - Chain keys after a DH ratchet step are derived so that the sender's
//!   sending chain equals the receiver's receiving chain.
//! - Skipped message keys are indexed by `(their DH public key, n)`, so a
//!   message that arrives late after a chain switch can still be decrypted.
//! - The header (`DH || PN || N`) is bound to the ciphertext as AEAD
//!   associated data.
//! - Decryption commits on success only: a message that fails leaves the
//!   state exactly as it was.

use vstd::prelude::*;

use crate::buf::{append_bytes, array32_at, bytes_eq, bytes_to_vec};
use crate::bytes::{
    be_bytes, be_value, lemma_be_bytes_len, lemma_be_value_of_bytes, lemma_bytes_of_be_value,
    pow256, u32_from_be, u32_to_be,
};
use crate::crypto::{
    aead_max_plaintext, fill_random, hkdf_sha256, hkdf_sha256_spec, hmac_sha256, hmac_sha256_spec,
    wipe32, x25519_dh, x25519_dh_spec, x25519_public, x25519_public_spec, xchacha_open,
    xchacha_open_spec, xchacha_seal, xchacha_seal_spec,
};
use crate::labels::{root_kdf_info, root_kdf_info_spec};
use crate::text::push_str;

pub mod checkpoint;
pub mod skipped;

use crate::ratchet::checkpoint::encode_error;

use crate::ratchet::skipped::{
    entries_sized, has_key, insert_spec, key_index, keys_unique, skipped_clone, skipped_entries,
    skipped_get, skipped_insert, skipped_len, skipped_new, skipped_remove_first, skipped_swap_remove,
    swap_remove_spec, SkipEntry, SkippedKeys,
};

verus! {

/// Max number of message keys that may be skipped within a single receiving chain.
pub const MAX_SKIP: u32 = 1000;

/// Header is: DH public key (32) || PN (4) || N (4).
pub const HEADER_SIZE: usize = 40;

/// XChaCha20Poly1305 nonce size.
pub const NONCE_SIZE: usize = 24;

/// Largest message counter a ratchet state may hold and still be decrypted
/// with and persisted: `u32::MAX - MAX_SKIP - 1`.
pub const MAX_COUNTER: u32 = 4294966294;

/// Skipped-key capacity every ratchet is created with.
pub const MAX_SKIPPED_KEYS: usize = 2000;

#[derive(Debug, Clone, Copy, PartialEq, Eq, Structural)]
pub enum RatchetError {
    /// AEAD decryption failed.
    Decryption,
    /// Skip limit exceeded in the receive chain.
    SkipLimit,
    /// Malformed header.
    InvalidHeader,
    /// Chain not yet initialized; the responder must receive before sending.
    NotInitialized,
}

impl RatchetError {
    /// The error message.
    pub fn to_string(&self) -> (s: String)
        ensures
            s@ == match *self {
                RatchetError::Decryption => "AEAD decryption failed"@,
                RatchetError::SkipLimit => "skip limit (1000) exceeded in receive chain"@,
                RatchetError::InvalidHeader => "malformed header"@,
                RatchetError::NotInitialized =>
                    "chain not yet initialized; bob must receive first message before sending"@,
            },
    {
        let mut s = String::new();
        match self {
            RatchetError::Decryption => push_str(&mut s, "AEAD decryption failed"),
            RatchetError::SkipLimit => push_str(&mut s, "skip limit (1000) exceeded in receive chain"),
            RatchetError::InvalidHeader => push_str(&mut s, "malformed header"),
            RatchetError::NotInitialized => push_str(
                &mut s,
                "chain not yet initialized; bob must receive first message before sending",
            ),
        }
        s
    }
}

#[derive(Clone, Copy, Debug)]
pub struct Header {
    pub dh: [u8; 32],
    pub pn: u32,
    pub n: u32,
}

/// The 40 bytes of a header: `dh || pn || n`, integers big-endian.
pub open spec fn header_bytes(h: Header) -> Seq<u8> {
    h.dh@ + be_bytes(h.pn as nat, 4) + be_bytes(h.n as nat, 4)
}

impl Header {
    pub fn to_bytes(&self) -> (out: [u8; 40])
        ensures
            out@ == header_bytes(*self),
    {
        let d = &self.dh;
        let p = u32_to_be(self.pn);
        let n = u32_to_be(self.n);
        let out = [
            d[0], d[1], d[2], d[3], d[4], d[5], d[6], d[7], d[8], d[9], d[10], d[11], d[12],
            d[13], d[14], d[15], d[16], d[17], d[18], d[19], d[20], d[21], d[22], d[23], d[24],
            d[25], d[26], d[27], d[28], d[29], d[30], d[31], p[0], p[1], p[2], p[3], n[0], n[1],
            n[2], n[3],
        ];
        proof {
            lemma_be_bytes_len(self.pn as nat, 4);
            lemma_be_bytes_len(self.n as nat, 4);
        }
        assert(out@ =~= header_bytes(*self));
        out
    }

    /// Reads a header from the first 40 bytes of `b`.
    pub fn from_bytes(b: &[u8]) -> (r: Result<Self, RatchetError>)
        ensures
            b@.len() < 40 ==> r == Err::<Header, RatchetError>(RatchetError::InvalidHeader),
            b@.len() >= 40 ==> (r matches Ok(h) && header_bytes(h) == b@.subrange(0, 40)),
    {
        if b.len() < HEADER_SIZE {
            return Err(RatchetError::InvalidHeader);
        }
        let dh = array32_at(b, 0);
        let pn = u32_from_be(vstd::slice::slice_subrange(b, 32, 36));
        let n = u32_from_be(vstd::slice::slice_subrange(b, 36, 40));
        let h = Header { dh, pn, n };
        proof {
            lemma_bytes_of_be_value(b@.subrange(32, 36));
            lemma_bytes_of_be_value(b@.subrange(36, 40));
            assert(header_bytes(h) =~= b@.subrange(0, 40));
        }
        Ok(h)
    }
}

/// Reading back the bytes of a header gives the same header.
pub proof fn lemma_header_round_trip(h: Header, rest: Seq<u8>)
    ensures
        (header_bytes(h) + rest).subrange(0, 32) == h.dh@,
        be_value((header_bytes(h) + rest).subrange(32, 36)) == h.pn,
        be_value((header_bytes(h) + rest).subrange(36, 40)) == h.n,
{
    let b = header_bytes(h) + rest;
    lemma_be_bytes_len(h.pn as nat, 4);
    lemma_be_bytes_len(h.n as nat, 4);
    reveal_with_fuel(pow256, 5);
    assert(b.subrange(0, 32) =~= h.dh@);
    assert(b.subrange(32, 36) =~= be_bytes(h.pn as nat, 4));
    assert(b.subrange(36, 40) =~= be_bytes(h.n as nat, 4));
    lemma_be_value_of_bytes(h.pn as nat, 4);
    lemma_be_value_of_bytes(h.n as nat, 4);
}

// ── The ratchet state and its rules ───────────────────────────────────────────

/// The complete state of a ratchet.
pub struct RatchetState {
    /// Our current DH secret.
    pub dhs: Seq<u8>,
    /// Their last seen DH public key.
    pub dhr: Option<Seq<u8>>,
    pub rk: Seq<u8>,
    /// Sending chain key.
    pub cks: Option<Seq<u8>>,
    /// Receiving chain key.
    pub ckr: Option<Seq<u8>>,
    /// Messages sent in the current sending chain.
    pub ns: u32,
    /// Messages received in the current receiving chain.
    pub nr: u32,
    /// Messages sent in the previous sending chain.
    pub pn: u32,
    /// Skipped message keys, oldest first.
    pub skipped: Seq<SkipEntry>,
    pub max_skipped: usize,
}

/// The invariant every ratchet keeps.
pub open spec fn ratchet_wf(s: RatchetState) -> bool {
    &&& s.dhs.len() == 32
    &&& s.rk.len() == 32
    &&& (s.dhr matches Some(d) ==> d.len() == 32)
    &&& (s.cks matches Some(k) ==> k.len() == 32)
    &&& (s.ckr matches Some(k) ==> k.len() == 32)
    &&& (s.ckr is Some ==> s.dhr is Some)
    &&& keys_unique(s.skipped)
    &&& entries_sized(s.skipped)
}

/// The root KDF: HKDF-SHA256 salted with the root key, split into the new
/// root key and a chain key.
pub open spec fn root_kdf(rk: Seq<u8>, dh_out: Seq<u8>) -> (Seq<u8>, Seq<u8>) {
    let okm = hkdf_sha256_spec(Some(rk), dh_out, root_kdf_info_spec(), 64);
    (okm.subrange(0, 32), okm.subrange(32, 64))
}

/// The next chain key: `HMAC(ck, 0x02)`.
pub open spec fn chain_next(ck: Seq<u8>) -> Seq<u8> {
    hmac_sha256_spec(ck, seq![2u8])
}

/// The message key of a chain key: `HMAC(ck, 0x01)`.
pub open spec fn message_key(ck: Seq<u8>) -> Seq<u8> {
    hmac_sha256_spec(ck, seq![1u8])
}

/// The chain key `k` steps along from `ck`.
pub open spec fn chain_advance(ck: Seq<u8>, k: nat) -> Seq<u8>
    decreases k,
{
    if k == 0 {
        ck
    } else {
        chain_next(chain_advance(ck, (k - 1) as nat))
    }
}

/// `s` with the keys of messages `start..end` of the chain that starts at
/// `ck` inserted, under their DH key `dhr`.
pub open spec fn skip_inserts(s: Seq<SkipEntry>, dhr: Seq<u8>, ck: Seq<u8>, start: nat, end: nat) -> Seq<
    SkipEntry,
>
    decreases end,
{
    if end <= start {
        s
    } else {
        insert_spec(
            skip_inserts(s, dhr, ck, start, (end - 1) as nat),
            dhr,
            (end - 1) as u32,
            message_key(chain_advance(ck, (end - 1 - start) as nat)),
        )
    }
}

/// The newest `max` entries of `s`: the oldest are evicted first.
pub open spec fn trim_spec(s: Seq<SkipEntry>, max: usize) -> Seq<SkipEntry> {
    if s.len() > max {
        s.subrange(s.len() - max, s.len() as int)
    } else {
        s
    }
}

/// Storing the keys of the current receiving chain up to message `until`.
pub open spec fn skip_spec(v: RatchetState, until: u32) -> Result<RatchetState, RatchetError> {
    if v.nr + MAX_SKIP < until {
        Err(RatchetError::SkipLimit)
    } else {
        match v.ckr {
            None => Ok(v),
            Some(ck) => {
                let end: u32 = if v.nr < until {
                    until
                } else {
                    v.nr
                };
                Ok(
                    RatchetState {
                        skipped: trim_spec(
                            skip_inserts(v.skipped, v.dhr->Some_0, ck, v.nr as nat, until as nat),
                            v.max_skipped,
                        ),
                        ckr: Some(chain_advance(ck, (end - v.nr) as nat)),
                        nr: end,
                        ..v
                    },
                )
            },
        }
    }
}

/// The DH ratchet step on receiving a new public key `new_dhr`, with the
/// freshly drawn secret `new_dhs`: a new receiving chain from the old secret,
/// then a new sending chain from the new one.
pub open spec fn dh_step_spec(v: RatchetState, new_dhr: Seq<u8>, new_dhs: Seq<u8>) -> RatchetState {
    let (rk1, ckr) = root_kdf(v.rk, x25519_dh_spec(v.dhs, new_dhr));
    let (rk2, cks) = root_kdf(rk1, x25519_dh_spec(new_dhs, new_dhr));
    RatchetState {
        dhs: new_dhs,
        dhr: Some(new_dhr),
        rk: rk2,
        cks: Some(cks),
        ckr: Some(ckr),
        ns: 0,
        nr: 0,
        pn: v.ns,
        ..v
    }
}

/// X25519 agreement of our secret `mine` with their public key `theirs`:
/// whoever made `theirs` from a secret computes, against our public key,
/// what we compute against `theirs`.
pub open spec fn dh_agrees(mine: Seq<u8>, theirs: Seq<u8>) -> bool {
    forall|other: Seq<u8>|
        other.len() == 32 && theirs == x25519_public_spec(other) ==> #[trigger] x25519_dh_spec(
            other,
            x25519_public_spec(mine),
        ) == x25519_dh_spec(mine, theirs)
}

/// The key of message `n` of the sending chain that a peer with DH secret
/// `other` starts against the state `v`: from `v`'s root key and the
/// agreement of `other` with `v`'s DH key.
pub open spec fn peer_message_key(v: RatchetState, other: Seq<u8>, n: u32) -> Seq<u8> {
    message_key(
        chain_advance(root_kdf(v.rk, x25519_dh_spec(other, x25519_public_spec(v.dhs))).1, n as nat),
    )
}

/// A header the receiving rules answer with a new chain: it names a DH key
/// other than the last one seen, no skipped key is stored for it, the
/// current chain can be closed at its `pn`, and its message number is
/// within the skip limit.
pub open spec fn opens_new_chain(v: RatchetState, h: Header) -> bool {
    &&& v.dhr != Some(h.dh@)
    &&& !has_key(v.skipped, h.dh@, h.n)
    &&& skip_spec(v, h.pn) is Ok
    &&& h.n <= MAX_SKIP
}

/// A header whose receipt would count the receiving chain past `u32::MAX`:
/// it continues the current chain (no stored key, no DH step) to a message
/// number within the skip limit, and the last counter value is reached.
pub open spec fn receive_overflows(v: RatchetState, h: Header) -> bool {
    &&& !has_key(v.skipped, h.dh@, h.n)
    &&& v.dhr == Some(h.dh@)
    &&& v.ckr is Some
    &&& v.nr + MAX_SKIP >= h.n
    &&& (v.nr == u32::MAX || h.n == u32::MAX)
}

/// Opening `nonce || ciphertext` under a message key.
pub open spec fn open_spec(mk: Seq<u8>, ct: Seq<u8>, ad: Seq<u8>) -> Result<Seq<u8>, RatchetError> {
    if ct.len() < 24 {
        Err(RatchetError::Decryption)
    } else {
        match xchacha_open_spec(mk, ct.subrange(0, 24), ct.subrange(24, ct.len() as int), ad) {
            Some(p) => Ok(p),
            None => Err(RatchetError::Decryption),
        }
    }
}

/// Whether `ct` is `nonce || seal(mk, nonce, pt, ad)` for its own nonce, of
/// a plaintext the cipher accepts.
pub open spec fn sealed_under(mk: Seq<u8>, ct: Seq<u8>, pt: Seq<u8>, ad: Seq<u8>) -> bool {
    &&& pt.len() <= aead_max_plaintext()
    &&& ct.len() >= 24
    &&& ct.subrange(24, ct.len() as int) == xchacha_seal_spec(mk, ct.subrange(0, 24), pt, ad)
}

/// The message key the receiving rules select for header `h` in state `v`,
/// if they select one.
pub open spec fn selected_key(v: RatchetState, h: Header, new_dhs: Seq<u8>) -> Option<Seq<u8>> {
    if has_key(v.skipped, h.dh@, h.n) {
        Some(v.skipped[key_index(v.skipped, h.dh@, h.n)].2)
    } else {
        match receive_chain(v, h, new_dhs) {
            Ok(v2) => match v2.ckr {
                Some(ck) => Some(message_key(ck)),
                None => None,
            },
            Err(_) => None,
        }
    }
}

/// The state after the DH step (when the header names a new key) and after
/// skipping to the header's message number.
pub open spec fn receive_chain(v: RatchetState, h: Header, new_dhs: Seq<u8>) -> Result<
    RatchetState,
    RatchetError,
> {
    let need_dh = v.dhr != Some(h.dh@);
    let r1 = if need_dh {
        match skip_spec(v, h.pn) {
            Ok(v1) => Ok(dh_step_spec(v1, h.dh@, new_dhs)),
            Err(e) => Err(e),
        }
    } else {
        Ok(v)
    };
    match r1 {
        Err(e) => Err(e),
        Ok(v1) => skip_spec(v1, h.n),
    }
}

/// Receiving `ct` with header `h` and associated data `ad` in state `v`: the
/// state it leads to and the plaintext, or the error. `new_dhs` is the secret
/// a DH step would draw.
pub open spec fn receive_spec(v: RatchetState, h: Header, ct: Seq<u8>, ad: Seq<u8>, new_dhs: Seq<u8>) -> (
    RatchetState,
    Result<Seq<u8>, RatchetError>,
) {
    let full_ad = ad + header_bytes(h);
    if has_key(v.skipped, h.dh@, h.n) {
        let i = key_index(v.skipped, h.dh@, h.n);
        (
            RatchetState { skipped: swap_remove_spec(v.skipped, i), ..v },
            open_spec(v.skipped[i].2, ct, full_ad),
        )
    } else {
        match receive_chain(v, h, new_dhs) {
            Err(e) => (v, Err(e)),
            Ok(v2) => match v2.ckr {
                None => (v, Err(RatchetError::NotInitialized)),
                Some(ck) => (
                    RatchetState { ckr: Some(chain_next(ck)), nr: (v2.nr + 1) as u32, ..v2 },
                    open_spec(message_key(ck), ct, full_ad),
                ),
            },
        }
    }
}

pub struct DoubleRatchet {
    dhs: [u8; 32],
    dhr: Option<[u8; 32]>,
    rk: [u8; 32],
    cks: Option<[u8; 32]>,
    ckr: Option<[u8; 32]>,
    ns: u32,
    nr: u32,
    pn: u32,
    skipped: SkippedKeys,
    max_skipped: usize,
}

pub open spec fn opt_key(o: Option<[u8; 32]>) -> Option<Seq<u8>> {
    match o {
        Some(k) => Some(k@),
        None => None,
    }
}

impl View for DoubleRatchet {
    type V = RatchetState;

    closed spec fn view(&self) -> RatchetState {
        RatchetState {
            dhs: self.dhs@,
            dhr: opt_key(self.dhr),
            rk: self.rk@,
            cks: opt_key(self.cks),
            ckr: opt_key(self.ckr),
            ns: self.ns,
            nr: self.nr,
            pn: self.pn,
            skipped: skipped_entries(self.skipped),
            max_skipped: self.max_skipped,
        }
    }
}

/// For a header that opens a new chain, the key the receiving rules select
/// is the peer's key for that message, whatever secret the DH step draws.
proof fn lemma_new_chain_key(v: RatchetState, h: Header, x: Seq<u8>, other: Seq<u8>)
    requires
        opens_new_chain(v, h),
        dh_agrees(v.dhs, h.dh@),
        other.len() == 32,
        h.dh@ == x25519_public_spec(other),
    ensures
        selected_key(v, h, x) == Some(peer_message_key(v, other, h.n)),
{
    let v1 = skip_spec(v, h.pn)->Ok_0;
    assert(v1.rk == v.rk && v1.dhs == v.dhs);
    let v2 = dh_step_spec(v1, h.dh@, x);
    assert(x25519_dh_spec(other, x25519_public_spec(v.dhs)) == x25519_dh_spec(v.dhs, h.dh@));
    assert(v2.nr == 0);
    let v3 = skip_spec(v2, h.n)->Ok_0;
    assert(skip_spec(v2, h.n) is Ok);
    assert(v3.ckr == Some(chain_advance(v2.ckr->Some_0, h.n as nat)));
    assert(receive_chain(v, h, x) == Ok::<RatchetState, RatchetError>(v3));
}

// ── Lemmas on the skipped keys ────────────────────────────────────────────────

proof fn lemma_insert_wf(s: Seq<SkipEntry>, dh: Seq<u8>, n: u32, mk: Seq<u8>)
    requires
        keys_unique(s),
        entries_sized(s),
        dh.len() == 32,
        mk.len() == 32,
    ensures
        keys_unique(insert_spec(s, dh, n, mk)),
        entries_sized(insert_spec(s, dh, n, mk)),
        has_key(insert_spec(s, dh, n, mk), dh, n),
{
    let t = insert_spec(s, dh, n, mk);
    if has_key(s, dh, n) {
        let i = key_index(s, dh, n);
        assert(t[i].0 == dh && t[i].1 == n);
    } else {
        assert(t[s.len() as int].0 == dh && t[s.len() as int].1 == n);
    }
}

proof fn lemma_subrange_wf(s: Seq<SkipEntry>, a: int, b: int)
    requires
        keys_unique(s),
        entries_sized(s),
        0 <= a <= b <= s.len(),
    ensures
        keys_unique(s.subrange(a, b)),
        entries_sized(s.subrange(a, b)),
{
    let t = s.subrange(a, b);
    assert forall|i: int, j: int|
        0 <= i < t.len() && 0 <= j < t.len() && i != j implies !(t[i].0 == t[j].0 && t[i].1
        == t[j].1) by {
        assert(t[i] == s[a + i] && t[j] == s[a + j]);
    }
    assert forall|i: int| 0 <= i < t.len() implies t[i].0.len() == 32 && t[i].2.len() == 32 by {
        assert(t[i] == s[a + i]);
    }
}

proof fn lemma_swap_remove_wf(s: Seq<SkipEntry>, i: int)
    requires
        keys_unique(s),
        entries_sized(s),
        0 <= i < s.len(),
    ensures
        keys_unique(swap_remove_spec(s, i)),
        entries_sized(swap_remove_spec(s, i)),
{
    let t = swap_remove_spec(s, i);
    let last = s.len() - 1;
    assert forall|a: int| 0 <= a < t.len() implies t[a] == (if a == i {
        s[last]
    } else {
        s[a]
    }) by {}
    assert forall|a: int, b: int|
        0 <= a < t.len() && 0 <= b < t.len() && a != b implies !(t[a].0 == t[b].0 && t[a].1
        == t[b].1) by {
        let sa = if a == i {
            last
        } else {
            a
        };
        let sb = if b == i {
            last
        } else {
            b
        };
        assert(t[a] == s[sa] && t[b] == s[sb]);
    }
}

// ── Key derivation and encryption helpers ─────────────────────────────────────

fn kdf_rk(rk: &[u8; 32], dh_out: &[u8; 32]) -> (r: ([u8; 32], [u8; 32]))
    ensures
        (r.0@, r.1@) == root_kdf(rk@, dh_out@),
{
    let info = root_kdf_info();
    let okm = hkdf_sha256(Some(rk.as_slice()), dh_out.as_slice(), info.as_slice(), 64);
    let new_rk = array32_at(okm.as_slice(), 0);
    let new_ck = array32_at(okm.as_slice(), 32);
    (new_rk, new_ck)
}

fn kdf_ck(ck: &[u8; 32]) -> (r: ([u8; 32], [u8; 32]))
    ensures
        r.0@ == chain_next(ck@),
        r.1@ == message_key(ck@),
{
    let two = [2u8];
    let one = [1u8];
    assert(two@ =~= seq![2u8]);
    assert(one@ =~= seq![1u8]);
    let new_ck = hmac_sha256(ck.as_slice(), two.as_slice());
    let mk = hmac_sha256(ck.as_slice(), one.as_slice());
    (new_ck, mk)
}

/// A fresh random DH secret.
fn random_secret() -> (k: [u8; 32]) {
    let mut k = [0u8; 32];
    fill_random(vstd::array::ref_mut_array_unsizing_coercion(&mut k));
    k
}

fn aead_encrypt(key: &[u8; 32], plaintext: &[u8], ad: &[u8]) -> (r: Result<Vec<u8>, RatchetError>)
    ensures
        plaintext@.len() > aead_max_plaintext() ==> (r matches Err(e) && e
            == RatchetError::Decryption),
        plaintext@.len() <= aead_max_plaintext() ==> (r matches Ok(ct) && sealed_under(
            key@,
            ct@,
            plaintext@,
            ad@,
        ) && ct@.len() == 24 + plaintext@.len() + 16),
{
    if plaintext.len() as u64 > 274877906879u64 {
        return Err(RatchetError::Decryption);
    }
    let mut nonce = [0u8; 24];
    fill_random(vstd::array::ref_mut_array_unsizing_coercion(&mut nonce));
    let body = xchacha_seal(key, &nonce, plaintext, ad);
    let mut out: Vec<u8> = Vec::new();
    append_bytes(&mut out, nonce.as_slice());
    append_bytes(&mut out, body.as_slice());
    assert(out@.subrange(0, 24) =~= nonce@);
    assert(out@.subrange(24, out@.len() as int) =~= body@);
    Ok(out)
}

fn aead_decrypt(key: &[u8; 32], ct_with_nonce: &[u8], ad: &[u8]) -> (r: Result<Vec<u8>, RatchetError>)
    ensures
        match open_spec(key@, ct_with_nonce@, ad@) {
            Ok(p) => r matches Ok(q) && q@ == p,
            Err(e) => r == Err::<Vec<u8>, RatchetError>(e),
        },
        forall|m: Seq<u8>|
            sealed_under(key@, ct_with_nonce@, m, ad@) ==> (r matches Ok(q) && q@ == m),
{
    if ct_with_nonce.len() < NONCE_SIZE {
        return Err(RatchetError::Decryption);
    }
    let nonce = vstd::slice::slice_subrange(ct_with_nonce, 0, NONCE_SIZE);
    let ct = vstd::slice::slice_subrange(ct_with_nonce, NONCE_SIZE, ct_with_nonce.len());
    match xchacha_open(key, nonce, ct, ad) {
        Some(p) => Ok(p),
        None => Err(RatchetError::Decryption),
    }
}

fn concat_ad(ad: &[u8], header_bytes: &[u8]) -> (v: Vec<u8>)
    ensures
        v@ == ad@ + header_bytes@,
{
    let mut v = bytes_to_vec(ad);
    append_bytes(&mut v, header_bytes);
    v
}

impl DoubleRatchet {
    /// The invariant every ratchet keeps.
    pub open spec fn wf(&self) -> bool {
        ratchet_wf(self@)
    }

    /// The initiator's side: she already knows the responder's initial DH
    /// public key (his signed prekey), so she derives the first sending chain
    /// at once.
    pub fn init_alice(sk: [u8; 32], their_initial_dh: [u8; 32]) -> (r: Self)
        ensures
            r.wf(),
            r@.dhs.len() == 32,
            r@.dhr == Some(their_initial_dh@),
            (r@.rk, r@.cks->Some_0) == root_kdf(sk@, x25519_dh_spec(r@.dhs, their_initial_dh@)),
            r@.cks is Some,
            r@.ckr is None,
            r@.ns == 0 && r@.nr == 0 && r@.pn == 0,
            r@.skipped == Seq::<SkipEntry>::empty(),
            r@.max_skipped == MAX_SKIPPED_KEYS,
    {
        let dhs = random_secret();
        let dh_out = x25519_dh(&dhs, &their_initial_dh);
        let (rk, cks) = kdf_rk(&sk, &dh_out);
        DoubleRatchet {
            dhs,
            dhr: Some(their_initial_dh),
            rk,
            cks: Some(cks),
            ckr: None,
            ns: 0,
            nr: 0,
            pn: 0,
            skipped: skipped_new(),
            max_skipped: 2000,
        }
    }

    /// The responder's side: he keeps his signed-prekey DH key pair and sets
    /// up chains only when the first message arrives.
    pub fn init_bob(sk: [u8; 32], our_initial_dh: [u8; 32]) -> (r: Self)
        ensures
            r.wf(),
            r@ == (RatchetState {
                dhs: our_initial_dh@,
                dhr: None,
                rk: sk@,
                cks: None,
                ckr: None,
                ns: 0,
                nr: 0,
                pn: 0,
                skipped: Seq::<SkipEntry>::empty(),
                max_skipped: MAX_SKIPPED_KEYS,
            }),
    {
        DoubleRatchet {
            dhs: our_initial_dh,
            dhr: None,
            rk: sk,
            cks: None,
            ckr: None,
            ns: 0,
            nr: 0,
            pn: 0,
            skipped: skipped_new(),
            max_skipped: 2000,
        }
    }

    /// Our current DH public key.
    pub fn our_dh_public(&self) -> (pk: [u8; 32])
        ensures
            pk@ == x25519_public_spec(self@.dhs),
    {
        x25519_public(&self.dhs)
    }

    /// Encrypts `plaintext`, binding `ad` and the header. Advances the sending
    /// chain by one message, also when the plaintext is too long to seal,
    /// which is a decryption error.
    pub fn encrypt(&mut self, plaintext: &[u8], ad: &[u8]) -> (r: Result<(Header, Vec<u8>), RatchetError>)
        requires
            old(self).wf(),
            old(self)@.ns < u32::MAX,
        ensures
            final(self).wf(),
            match old(self)@.cks {
                None => r matches Err(e) && e == RatchetError::NotInitialized && final(self)@
                    == old(self)@,
                Some(ck) => final(self)@ == (RatchetState {
                    cks: Some(chain_next(ck)),
                    ns: (old(self)@.ns + 1) as u32,
                    ..old(self)@
                }) && if plaintext@.len() <= aead_max_plaintext() {
                    r matches Ok((h, ct)) && h.dh@ == x25519_public_spec(old(self)@.dhs) && h.pn
                        == old(self)@.pn && h.n == old(self)@.ns && sealed_under(
                        message_key(ck),
                        ct@,
                        plaintext@,
                        ad@ + header_bytes(h),
                    ) && ct@.len() == 24 + plaintext@.len() + 16
                } else {
                    r matches Err(e) && e == RatchetError::Decryption
                },
            },
    {
        let cks = match self.cks {
            Some(c) => c,
            None => return Err(RatchetError::NotInitialized),
        };
        let (new_cks, mk) = kdf_ck(&cks);
        self.cks = Some(new_cks);
        let header = Header { dh: self.our_dh_public(), pn: self.pn, n: self.ns };
        self.ns = self.ns + 1;
        let hb = header.to_bytes();
        let full_ad = concat_ad(ad, hb.as_slice());
        let ct = aead_encrypt(&mk, plaintext, full_ad.as_slice())?;
        Ok((header, ct))
    }

    /// Decrypts with commit-on-success semantics: on any error the state is
    /// exactly what it was before the call.
    pub fn decrypt(&mut self, header: &Header, ciphertext: &[u8], ad: &[u8]) -> (r: Result<
        Vec<u8>,
        RatchetError,
    >)
        requires
            old(self).wf(),
            !receive_overflows(old(self)@, *header),
        ensures
            final(self).wf(),
            ({
                let expected = receive_spec(
                    old(self)@,
                    *header,
                    ciphertext@,
                    ad@,
                    final(self)@.dhs,
                );
                match r {
                    Ok(p) => expected.1 == Ok::<Seq<u8>, RatchetError>(p@) && final(self)@
                        == expected.0,
                    Err(e) => expected.1 == Err::<Seq<u8>, RatchetError>(e) && final(self)@
                        == old(self)@,
                }
            }),
            ({
                let k = selected_key(old(self)@, *header, final(self)@.dhs);
                forall|m: Seq<u8>|
                    k is Some && sealed_under(k->Some_0, ciphertext@, m, ad@ + header_bytes(*header))
                        ==> (r matches Ok(q) && q@ == m)
            }),
            forall|other: Seq<u8>, m: Seq<u8>|
                other.len() == 32 && header.dh@ == x25519_public_spec(other) && opens_new_chain(
                    old(self)@,
                    *header,
                ) && #[trigger] sealed_under(
                    peer_message_key(old(self)@, other, header.n),
                    ciphertext@,
                    m,
                    ad@ + header_bytes(*header),
                ) ==> (r matches Ok(q) && q@ == m),
    {
        let mut snapshot = self.snapshot();
        let r = self.decrypt_inner(header, ciphertext, ad);
        proof {
            assert forall|other: Seq<u8>, m: Seq<u8>|
                other.len() == 32 && header.dh@ == x25519_public_spec(other) && opens_new_chain(
                    old(self)@,
                    *header,
                ) && #[trigger] sealed_under(
                    peer_message_key(old(self)@, other, header.n),
                    ciphertext@,
                    m,
                    ad@ + header_bytes(*header),
                ) implies (r matches Ok(q) && q@ == m) by {
                lemma_new_chain_key(old(self)@, *header, self@.dhs, other);
                let k = selected_key(old(self)@, *header, self@.dhs);
                assert(k == Some(peer_message_key(old(self)@, other, header.n)));
                assert(k is Some && sealed_under(k->Some_0, ciphertext@, m, ad@ + header_bytes(*header)));
            }
        }
        match r {
            Ok(pt) => {
                snapshot.zeroize_key_material();
                Ok(pt)
            },
            Err(e) => {
                proof {
                    lemma_receive_result_independent(
                        old(self)@,
                        *header,
                        ciphertext@,
                        ad@,
                        self@.dhs,
                        old(self)@.dhs,
                    );
                }
                self.restore(snapshot);
                Err(e)
            },
        }
    }

    fn decrypt_inner(&mut self, header: &Header, ciphertext: &[u8], ad: &[u8]) -> (r: Result<
        Vec<u8>,
        RatchetError,
    >)
        requires
            old(self).wf(),
            !receive_overflows(old(self)@, *header),
        ensures
            final(self)@.dhs.len() == 32,
            ({
                let expected = receive_spec(
                    old(self)@,
                    *header,
                    ciphertext@,
                    ad@,
                    final(self)@.dhs,
                );
                match r {
                    Ok(p) => expected.1 == Ok::<Seq<u8>, RatchetError>(p@) && final(self)@
                        == expected.0 && final(self).wf(),
                    Err(e) => expected.1 == Err::<Seq<u8>, RatchetError>(e),
                }
            }),
            ({
                let k = selected_key(old(self)@, *header, final(self)@.dhs);
                forall|m: Seq<u8>|
                    k is Some && sealed_under(k->Some_0, ciphertext@, m, ad@ + header_bytes(*header))
                        ==> (r matches Ok(q) && q@ == m)
            }),
            opens_new_chain(old(self)@, *header) ==> dh_agrees(old(self)@.dhs, header.dh@),
    {
        let ghost v0 = self@;
        let hb = header.to_bytes();
        let full_ad = concat_ad(ad, hb.as_slice());
        let found = skipped_swap_remove(&mut self.skipped, &header.dh, header.n);
        if let Some(mk) = found {
            proof {
                lemma_swap_remove_wf(v0.skipped, key_index(v0.skipped, header.dh@, header.n));
                assert(self@ == RatchetState {
                    skipped: swap_remove_spec(
                        v0.skipped,
                        key_index(v0.skipped, header.dh@, header.n),
                    ),
                    ..v0
                });
            }
            return aead_decrypt(&mk, ciphertext, full_ad.as_slice());
        }
        let need_dh = match self.dhr {
            Some(d) => !bytes_eq(d.as_slice(), header.dh.as_slice()),
            None => true,
        };
        assert(need_dh == (v0.dhr != Some(header.dh@)));
        if need_dh {
            self.skip_message_keys(header.pn)?;
            self.dh_ratchet_step(header.dh);
        }
        let ghost v1 = self@;
        self.skip_message_keys(header.n)?;
        let ckr = match self.ckr {
            Some(c) => c,
            None => return Err(RatchetError::NotInitialized),
        };
        let (new_ckr, mk) = kdf_ck(&ckr);
        self.ckr = Some(new_ckr);
        self.nr = self.nr + 1;
        aead_decrypt(&mk, ciphertext, full_ad.as_slice())
    }

    /// An exact copy of the current state, for rolling back a failed decrypt.
    fn snapshot(&self) -> (s: DoubleRatchet)
        ensures
            s@ == self@,
    {
        self.staged_copy()
    }

    /// Restores a snapshot, wiping the discarded key material first and the
    /// snapshot's own copies of the keys after.
    fn restore(&mut self, snap: DoubleRatchet)
        ensures
            final(self)@ == snap@,
    {
        let mut snap = snap;
        self.zeroize_key_material();
        self.dhs = snap.dhs;
        self.dhr = snap.dhr;
        self.rk = snap.rk;
        self.cks = snap.cks;
        self.ckr = snap.ckr;
        self.ns = snap.ns;
        self.nr = snap.nr;
        self.pn = snap.pn;
        self.skipped = snap.skipped;
        self.max_skipped = snap.max_skipped;
        wipe32(&mut snap.rk);
        if let Some(mut k) = snap.cks {
            wipe32(&mut k);
            snap.cks = Some(k);
        }
        if let Some(mut k) = snap.ckr {
            wipe32(&mut k);
            snap.ckr = Some(k);
        }
    }

    /// Stores the message keys of the current receiving chain up to message
    /// `until`, refusing to skip more than [`MAX_SKIP`].
    fn skip_message_keys(&mut self, until: u32) -> (r: Result<(), RatchetError>)
        requires
            old(self).wf(),
        ensures
            match skip_spec(old(self)@, until) {
                Ok(v) => r is Ok && final(self)@ == v && final(self).wf(),
                Err(e) => r == Err::<(), RatchetError>(e) && final(self)@ == old(self)@,
            },
    {
        let ghost v0 = self@;
        if self.nr.saturating_add(MAX_SKIP) < until {
            return Err(RatchetError::SkipLimit);
        }
        if let Some(ck0) = self.ckr {
            let dhr = match self.dhr {
                Some(d) => d,
                None => {
                    assert(false);
                    return Ok(());
                },
            };
            let start = self.nr;
            let mut ckr = ck0;
            let mut nr = self.nr;
            while nr < until
                invariant
                    start == v0.nr,
                    start <= nr,
                    nr <= until || nr == start,
                    ckr@ == chain_advance(ck0@, (nr - start) as nat),
                    skipped_entries(self.skipped) == skip_inserts(
                        v0.skipped,
                        dhr@,
                        ck0@,
                        start as nat,
                        nr as nat,
                    ),
                    self@ == (RatchetState { skipped: skipped_entries(self.skipped), ..v0 }),
                    v0.dhr == Some(dhr@),
                    v0.ckr == Some(ck0@),
                    keys_unique(skipped_entries(self.skipped)),
                    entries_sized(skipped_entries(self.skipped)),
                    dhr@.len() == 32,
                decreases until - nr,
            {
                let (new_ckr, mk) = kdf_ck(&ckr);
                proof {
                    lemma_insert_wf(skipped_entries(self.skipped), dhr@, nr, mk@);
                }
                skipped_insert(&mut self.skipped, dhr, nr, mk);
                ckr = new_ckr;
                nr = nr + 1;
                proof {
                    assert(chain_advance(ck0@, (nr - start) as nat) == chain_next(
                        chain_advance(ck0@, (nr - 1 - start) as nat),
                    ));
                }
            }
            proof {
                if until as nat <= start as nat {
                    assert(skip_inserts(v0.skipped, dhr@, ck0@, start as nat, until as nat)
                        == v0.skipped);
                }
            }
            self.ckr = Some(ckr);
            self.nr = nr;
            self.trim_skipped();
        }
        Ok(())
    }

    /// The DH ratchet step on receiving a new public key: a new receiving
    /// chain from our current secret, a fresh secret, and a new sending chain
    /// from it.
    fn dh_ratchet_step(&mut self, new_dhr: [u8; 32])
        requires
            old(self).wf(),
        ensures
            final(self)@ == dh_step_spec(old(self)@, new_dhr@, final(self)@.dhs),
            final(self).wf(),
            dh_agrees(old(self)@.dhs, new_dhr@),
    {
        self.pn = self.ns;
        self.ns = 0;
        self.nr = 0;
        self.dhr = Some(new_dhr);
        let dh_out = x25519_dh(&self.dhs, &new_dhr);
        let (rk, ckr) = kdf_rk(&self.rk, &dh_out);
        self.rk = rk;
        self.ckr = Some(ckr);
        self.dhs = random_secret();
        let dh_out = x25519_dh(&self.dhs, &new_dhr);
        let (rk, cks) = kdf_rk(&self.rk, &dh_out);
        self.rk = rk;
        self.cks = Some(cks);
    }

    /// Evicts the oldest skipped keys, wiping each, until at most
    /// `max_skipped` remain.
    pub fn trim_skipped(&mut self)
        requires
            old(self).wf(),
        ensures
            final(self)@ == (RatchetState {
                skipped: trim_spec(old(self)@.skipped, old(self)@.max_skipped),
                ..old(self)@
            }),
            final(self).wf(),
    {
        let ghost v0 = self@;
        let ghost removed: int = 0;
        while skipped_len(&self.skipped) > self.max_skipped
            invariant
                0 <= removed <= v0.skipped.len(),
                removed <= v0.skipped.len() - v0.max_skipped || removed == 0,
                skipped_entries(self.skipped) == v0.skipped.subrange(
                    removed,
                    v0.skipped.len() as int,
                ),
                self@ == (RatchetState { skipped: skipped_entries(self.skipped), ..v0 }),
            decreases skipped_entries(self.skipped).len(),
        {
            let evicted = skipped_remove_first(&mut self.skipped);
            if let Some(mut mk) = evicted {
                wipe32(&mut mk);
            }
            proof {
                removed = removed + 1;
                assert(skipped_entries(self.skipped) =~= v0.skipped.subrange(
                    removed,
                    v0.skipped.len() as int,
                ));
            }
        }
        proof {
            lemma_subrange_wf(v0.skipped, removed, v0.skipped.len() as int);
            if v0.skipped.len() > v0.max_skipped {
                assert(removed == v0.skipped.len() - v0.max_skipped);
            } else {
                assert(removed == 0);
                assert(v0.skipped.subrange(0, v0.skipped.len() as int) =~= v0.skipped);
            }
        }
    }

    /// Wipes the root key, both chain keys and every skipped message key.
    pub fn zeroize_key_material(&mut self)
        ensures
            final(self)@.rk == Seq::new(32, |i: int| 0u8),
            final(self)@.dhs == old(self)@.dhs,
            final(self)@.skipped.len() == old(self)@.skipped.len(),
    {
        wipe32(&mut self.rk);
        if let Some(mut k) = self.cks {
            wipe32(&mut k);
            self.cks = Some(k);
        }
        if let Some(mut k) = self.ckr {
            wipe32(&mut k);
            self.ckr = Some(k);
        }
        let n = skipped_len(&self.skipped);
        let mut i: usize = 0;
        while i < n
            invariant
                n == skipped_entries(self.skipped).len(),
                n == old(self)@.skipped.len(),
                self.rk@ == Seq::new(32, |i: int| 0u8),
                self.dhs == old(self).dhs,
            decreases n - i,
        {
            skipped::skipped_set_value(&mut self.skipped, i, [0u8; 32]);
            i = i + 1;
        }
    }

    /// Whether a receiving chain exists, that is, whether a message from
    /// the peer has been decrypted.
    pub fn has_receiving_chain(&self) -> (b: bool)
        ensures
            b == self@.ckr is Some,
    {
        self.ckr.is_some()
    }

    /// Our current DH secret.
    pub fn dhs(&self) -> (k: [u8; 32])
        ensures
            k@ == self@.dhs,
    {
        self.dhs
    }

    /// The most skipped message keys kept.
    pub fn max_skipped(&self) -> (m: usize)
        ensures
            m == self@.max_skipped,
    {
        self.max_skipped
    }

    /// The skipped-key entry at position `i`, oldest first:
    /// `(their DH public key, message number, message key)`.
    pub fn skipped_entry(&self, i: usize) -> (e: ([u8; 32], u32, [u8; 32]))
        requires
            i < self@.skipped.len(),
        ensures
            (e.0@, e.1, e.2@) == self@.skipped[i as int],
    {
        skipped_get(&self.skipped, i)
    }

    /// The root key.
    pub fn rk(&self) -> (k: [u8; 32])
        ensures
            k@ == self@.rk,
    {
        self.rk
    }

    /// The sending chain key, if there is one.
    pub fn cks(&self) -> (k: Option<[u8; 32]>)
        ensures
            opt_key(k) == self@.cks,
    {
        self.cks
    }

    /// The receiving chain key, if there is one.
    pub fn ckr(&self) -> (k: Option<[u8; 32]>)
        ensures
            opt_key(k) == self@.ckr,
    {
        self.ckr
    }

    /// The peer's DH public key last seen, if any.
    pub fn dhr(&self) -> (k: Option<[u8; 32]>)
        ensures
            opt_key(k) == self@.dhr,
    {
        self.dhr
    }

    /// The message counters `(ns, nr, pn)`.
    pub fn counters(&self) -> (c: (u32, u32, u32))
        ensures
            c == (self@.ns, self@.nr, self@.pn),
    {
        (self.ns, self.nr, self.pn)
    }

    /// How many skipped message keys are stored.
    pub fn skipped_count(&self) -> (n: usize)
        ensures
            n == self@.skipped.len(),
    {
        skipped_len(&self.skipped)
    }

    /// The stored message key of message `n` of the chain of `dh`, if any.
    pub fn skipped_key(&self, dh: &[u8; 32], n: u32) -> (r: Option<[u8; 32]>)
        requires
            self.wf(),
        ensures
            r is Some <==> has_key(self@.skipped, dh@, n),
            r matches Some(mk) ==> mk@ == self@.skipped[key_index(self@.skipped, dh@, n)].2,
    {
        let s = Ghost(self@.skipped);
        let len = skipped_len(&self.skipped);
        let mut i: usize = 0;
        while i < len
            invariant
                len == s@.len(),
                s@ == self@.skipped,
                keys_unique(s@),
                i <= len,
                forall|j: int| 0 <= j < i ==> !(s@[j].0 == dh@ && s@[j].1 == n),
            decreases len - i,
        {
            let e = skipped_get(&self.skipped, i);
            if e.1 == n && bytes_eq(e.0.as_slice(), dh.as_slice()) {
                proof {
                    assert(s@[i as int].0 == dh@);
                    let k = key_index(s@, dh@, n);
                    assert(has_key(s@, dh@, n));
                    assert(k == i);
                }
                return Some(e.2);
            }
            i = i + 1;
        }
        None
    }

    /// Sets the most skipped message keys kept.
    pub fn set_max_skipped(&mut self, max: usize)
        requires
            old(self).wf(),
        ensures
            final(self).wf(),
            final(self)@ == (RatchetState { max_skipped: max, ..old(self)@ }),
    {
        self.max_skipped = max;
    }

    /// Stores `mk` as the message key of message `n` of the chain of `dh`,
    /// replacing a key stored for it, else last.
    pub fn insert_skipped(&mut self, dh: [u8; 32], n: u32, mk: [u8; 32])
        requires
            old(self).wf(),
        ensures
            final(self).wf(),
            final(self)@ == (RatchetState {
                skipped: insert_spec(old(self)@.skipped, dh@, n, mk@),
                ..old(self)@
            }),
    {
        proof {
            lemma_insert_wf(self@.skipped, dh@, n, mk@);
        }
        skipped_insert(&mut self.skipped, dh, n, mk);
    }

    /// An independent copy of the full ratchet state, for preparing a
    /// transition without touching the original. At most one of the two may
    /// ever be used for output that leaves the process.
    pub fn staged_copy(&self) -> (c: DoubleRatchet)
        ensures
            c@ == self@,
    {
        DoubleRatchet {
            dhs: self.dhs,
            dhr: self.dhr,
            rk: self.rk,
            cks: self.cks,
            ckr: self.ckr,
            ns: self.ns,
            nr: self.nr,
            pn: self.pn,
            skipped: skipped_clone(&self.skipped),
            max_skipped: self.max_skipped,
        }
    }
}

/// What a received message decrypts to, whether it is refused, and whether
/// the state it leads to can be checkpointed, do not depend on the secret a
/// DH step draws: the new secret only feeds the next sending chain.
pub proof fn lemma_receive_result_independent(
    v: RatchetState,
    h: Header,
    ct: Seq<u8>,
    ad: Seq<u8>,
    x: Seq<u8>,
    y: Seq<u8>,
)
    ensures
        receive_spec(v, h, ct, ad, x).1 == receive_spec(v, h, ct, ad, y).1,
        selected_key(v, h, x) == selected_key(v, h, y),
        encode_error(receive_spec(v, h, ct, ad, x).0) == encode_error(
            receive_spec(v, h, ct, ad, y).0,
        ),
{
    if !has_key(v.skipped, h.dh@, h.n) && v.dhr != Some(h.dh@) {
        match skip_spec(v, h.pn) {
            Ok(v1) => {
                let a = dh_step_spec(v1, h.dh@, x);
                let b = dh_step_spec(v1, h.dh@, y);
                assert(a.ckr == b.ckr && a.nr == b.nr && a.dhr == b.dhr && a.skipped == b.skipped
                    && a.max_skipped == b.max_skipped);
            },
            Err(_) => {},
        }
    }
}

/// `bob` follows the sending chain of `alice` in order: it has seen her DH
/// key, its receiving chain key is her sending chain key, it expects her next
/// message number, and it stores no key for that message or a later one of
/// her chain.
pub open spec fn follows_chain(bob: RatchetState, alice: RatchetState) -> bool {
    &&& alice.cks is Some
    &&& bob.dhr == Some(x25519_public_spec(alice.dhs))
    &&& bob.ckr == alice.cks
    &&& bob.nr == alice.ns
    &&& forall|n: u32|
        n >= bob.nr ==> !#[trigger] has_key(bob.skipped, x25519_public_spec(alice.dhs), n)
}

/// The sender's state after [`DoubleRatchet::encrypt`] succeeds.
pub open spec fn sent_spec(v: RatchetState) -> RatchetState {
    RatchetState { cks: Some(chain_next(v.cks->Some_0)), ns: (v.ns + 1) as u32, ..v }
}

/// In-order delivery within a chain: while `bob` follows the sending chain of
/// `alice`, the receiving rules select for the header of her next message
/// exactly the key she seals it under, and once bob has received it he
/// follows her chain still.
pub proof fn lemma_in_order_delivery(
    alice: RatchetState,
    bob: RatchetState,
    h: Header,
    ct: Seq<u8>,
    ad: Seq<u8>,
    new_dhs: Seq<u8>,
)
    requires
        follows_chain(bob, alice),
        alice.ns < u32::MAX,
        h.dh@ == x25519_public_spec(alice.dhs),
        h.n == alice.ns,
    ensures
        selected_key(bob, h, new_dhs) == Some(message_key(alice.cks->Some_0)),
        follows_chain(receive_spec(bob, h, ct, ad, new_dhs).0, sent_spec(alice)),
{
    let dh = x25519_public_spec(alice.dhs);
    assert(!has_key(bob.skipped, dh, h.n));
    let ck = bob.ckr->Some_0;
    assert(chain_advance(ck, 0) == ck);
    let v2 = skip_spec(bob, h.n)->Ok_0;
    assert(skip_spec(bob, h.n) is Ok);
    assert(skip_inserts(bob.skipped, dh, ck, bob.nr as nat, h.n as nat) == bob.skipped);
    assert(receive_chain(bob, h, new_dhs) == Ok::<RatchetState, RatchetError>(v2));
    assert(v2.ckr == Some(ck) && v2.nr == h.n && v2.dhr == bob.dhr);
    let next = receive_spec(bob, h, ct, ad, new_dhs).0;
    assert(next.skipped == trim_spec(bob.skipped, bob.max_skipped));
    assert forall|n: u32| n >= next.nr implies !#[trigger] has_key(next.skipped, dh, n) by {
        if has_key(next.skipped, dh, n) {
            let i = choose|i: int|
                0 <= i < next.skipped.len() && next.skipped[i].0 == dh && next.skipped[i].1 == n;
            if bob.skipped.len() > bob.max_skipped {
                let off = bob.skipped.len() - bob.max_skipped;
                assert(next.skipped[i] == bob.skipped[i + off]);
            } else {
                assert(next.skipped[i] == bob.skipped[i]);
            }
            assert(has_key(bob.skipped, dh, n));
        }
    }
}


// ── Late messages after a chain switch ────────────────────────────────────────

/// Inserting keys that are all new appends them, in message order.
proof fn lemma_skip_inserts_fresh(s: Seq<SkipEntry>, dhr: Seq<u8>, ck: Seq<u8>, start: nat, end: nat)
    requires
        start <= end,
        end <= u32::MAX + 1,
        forall|k: u32| start <= k < end ==> !#[trigger] has_key(s, dhr, k),
    ensures
        skip_inserts(s, dhr, ck, start, end).len() == s.len() + (end - start),
        forall|i: int| 0 <= i < s.len() ==> #[trigger] skip_inserts(s, dhr, ck, start, end)[i] == s[i],
        forall|i: int|
            s.len() <= i < s.len() + (end - start) ==> #[trigger] skip_inserts(s, dhr, ck, start, end)[i]
                == (dhr, (start + (i - s.len())) as u32, message_key(
                chain_advance(ck, (i - s.len()) as nat),
            )),
    decreases end,
{
    if end > start {
        let e1 = (end - 1) as nat;
        lemma_skip_inserts_fresh(s, dhr, ck, start, e1);
        let prev = skip_inserts(s, dhr, ck, start, e1);
        if has_key(prev, dhr, e1 as u32) {
            let i = choose|i: int| 0 <= i < prev.len() && prev[i].0 == dhr && prev[i].1 == e1 as u32;
            if i < s.len() {
                assert(s[i].0 == dhr && s[i].1 == e1 as u32);
                assert(has_key(s, dhr, e1 as u32));
            } else {
                assert(prev[i].1 == (start + (i - s.len())) as u32);
            }
        }
        let t = skip_inserts(s, dhr, ck, start, end);
        assert(t == prev.push((dhr, e1 as u32, message_key(chain_advance(ck, (e1 - start) as nat)))));
    }
}

/// Inserting keys under `dhr` keeps every entry under another key in its
/// place, and grows the entries by at most one per message.
proof fn lemma_skip_inserts_others(s: Seq<SkipEntry>, dhr: Seq<u8>, ck: Seq<u8>, start: nat, end: nat)
    requires
        start <= end,
    ensures
        s.len() <= skip_inserts(s, dhr, ck, start, end).len() <= s.len() + (end - start),
        forall|i: int|
            0 <= i < skip_inserts(s, dhr, ck, start, end).len() ==> (#[trigger] skip_inserts(
                s,
                dhr,
                ck,
                start,
                end,
            )[i].0 == dhr || (i < s.len() && skip_inserts(s, dhr, ck, start, end)[i] == s[i])),
        forall|i: int|
            0 <= i < s.len() && s[i].0 != dhr ==> #[trigger] skip_inserts(s, dhr, ck, start, end)[i]
                == s[i],
    decreases end,
{
    if end > start {
        let e1 = (end - 1) as nat;
        lemma_skip_inserts_others(s, dhr, ck, start, e1);
        let prev = skip_inserts(s, dhr, ck, start, e1);
        let t = skip_inserts(s, dhr, ck, start, end);
        assert forall|i: int| 0 <= i < t.len() implies (#[trigger] t[i].0 == dhr || (i < s.len()
            && t[i] == s[i])) by {
            if has_key(prev, dhr, e1 as u32) {
                let j = key_index(prev, dhr, e1 as u32);
                if i != j {
                    assert(t[i] == prev[i]);
                }
            } else if i < prev.len() {
                assert(t[i] == prev[i]);
            }
        }
        assert forall|i: int| 0 <= i < s.len() && s[i].0 != dhr implies #[trigger] t[i] == s[i] by {
            assert(prev[i] == s[i]);
            if has_key(prev, dhr, e1 as u32) {
                let j = key_index(prev, dhr, e1 as u32);
                assert(i != j);
            }
        }
    }
}

/// The newest `max` entries are those of `s` past the evicted prefix.
proof fn lemma_trim_suffix(s: Seq<SkipEntry>, max: usize)
    ensures
        trim_spec(s, max).len() == (if s.len() > max {
            max as int
        } else {
            s.len() as int
        }),
        forall|i: int|
            0 <= i < trim_spec(s, max).len() ==> #[trigger] trim_spec(s, max)[i] == s[i + (
            if s.len() > max {
                s.len() - max
            } else {
                0
            })],
{
}

/// A late message from the previous chain: when a header opens a new chain,
/// the keys of the current receiving chain from `nr` up to the header's `pn`
/// are kept under the old DH key, so a message the peer sent earlier on that
/// chain (DH key `d`, number `n` with `nr <= n < pn`) is still opened after
/// the switch, under the key `n - nr` steps along the old chain. This holds
/// while the skipped-key store has room for the keys this header skips.
pub proof fn lemma_late_message_after_switch(
    v: RatchetState,
    h: Header,
    ct: Seq<u8>,
    ad: Seq<u8>,
    new_dhs: Seq<u8>,
    late: Header,
    late_ct: Seq<u8>,
    late_ad: Seq<u8>,
    any_dhs: Seq<u8>,
)
    requires
        v.dhr is Some,
        v.ckr is Some,
        v.dhr != Some(h.dh@),
        !has_key(v.skipped, h.dh@, h.n),
        h.pn <= v.nr + MAX_SKIP,
        h.n <= MAX_SKIP,
        (h.pn - v.nr) + h.n <= v.max_skipped,
        forall|k: u32| k >= v.nr ==> !#[trigger] has_key(v.skipped, v.dhr->Some_0, k),
        Some(late.dh@) == v.dhr,
        v.nr <= late.n < h.pn,
    ensures
        ({
            let after = receive_spec(v, h, ct, ad, new_dhs).0;
            let mk = message_key(chain_advance(v.ckr->Some_0, (late.n - v.nr) as nat));
            &&& selected_key(after, late, any_dhs) == Some(mk)
            &&& receive_spec(after, late, late_ct, late_ad, any_dhs).1 == open_spec(
                mk,
                late_ct,
                late_ad + header_bytes(late),
            )
        }),
{
    let d = v.dhr->Some_0;
    let ck = v.ckr->Some_0;
    let s0 = v.skipped;
    let l0 = s0.len();
    let pn = h.pn as nat;
    let nr = v.nr as nat;
    let n = late.n;
    let max = v.max_skipped;
    assert forall|k: u32| nr <= k < pn implies !#[trigger] has_key(s0, d, k) by {}
    lemma_skip_inserts_fresh(s0, d, ck, nr, pn);
    let a = skip_inserts(s0, d, ck, nr, pn);
    lemma_trim_suffix(a, max);
    let s1 = trim_spec(a, max);
    let off1: int = if a.len() > max {
        a.len() - max
    } else {
        0
    };
    let v1 = skip_spec(v, h.pn)->Ok_0;
    assert(skip_spec(v, h.pn) is Ok);
    assert(v1.skipped == s1);
    let v2 = dh_step_spec(v1, h.dh@, new_dhs);
    let ck2 = v2.ckr->Some_0;
    lemma_skip_inserts_others(s1, h.dh@, ck2, 0, h.n as nat);
    let b = skip_inserts(s1, h.dh@, ck2, 0, h.n as nat);
    lemma_trim_suffix(b, max);
    let s2 = trim_spec(b, max);
    let off2: int = if b.len() > max {
        b.len() - max
    } else {
        0
    };
    let v3 = skip_spec(v2, h.n)->Ok_0;
    assert(skip_spec(v2, h.n) is Ok);
    assert(v3.skipped == s2);
    assert(receive_chain(v, h, new_dhs) == Ok::<RatchetState, RatchetError>(v3));
    let after = receive_spec(v, h, ct, ad, new_dhs).0;
    assert(after.skipped == s2);
    let mk = message_key(chain_advance(ck, (n - nr) as nat));
    // The late key sits in the newest entries.
    let ia: int = l0 + (n - nr);
    let i2: int = ia - off1 - off2;
    assert(a[ia] == (d, n, mk));
    assert(s1[ia - off1] == a[ia]);
    assert(s1[ia - off1].0 != h.dh@);
    assert(b[ia - off1] == s1[ia - off1]);
    assert(s2[i2] == b[ia - off1]);
    assert(has_key(s2, d, n));
    // Every entry under that key holds the same message key.
    let j = key_index(s2, d, n);
    assert(s2[j] == b[j + off2]);
    assert(b[j + off2].0 != h.dh@);
    assert(b[j + off2] == s1[j + off2]);
    assert(s1[j + off2] == a[j + off2 + off1]);
    if j + off2 + off1 < l0 {
        assert(s0[j + off2 + off1].0 == d && s0[j + off2 + off1].1 == n);
        assert(has_key(s0, d, n));
    }
    assert(s2[j].2 == mk);
}

} // verus!
