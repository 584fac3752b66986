//! Post-quantum hybrid KEM: X25519 together with ML-KEM-768 (FIPS 203). The
//! shared secret is HKDF-SHA256 over `x25519_ss || ml_kem_ss`, 64 bytes, with
//! the info label `HybridKEM/v1`. A ciphertext is the sender's ephemeral
//! X25519 public key (32 bytes) followed by the ML-KEM ciphertext (1088 bytes).

use vstd::prelude::*;

use crate::buf::{append_bytes, array32_at, array64_at, bytes_to_vec};
use crate::crypto::{
    fill_random, hkdf_sha256, hkdf_sha256_spec, mlkem768_decaps_spec, mlkem768_decapsulate,
    mlkem768_ek_accepted, mlkem768_ek_check, mlkem768_ek_spec, mlkem768_encaps_spec,
    mlkem768_encapsulate, mlkem768_encapsulation_key, x25519_dh, x25519_dh_spec, x25519_public,
    x25519_public_spec,
};
use crate::labels::{hybrid_kem_info, hybrid_kem_info_spec};

verus! {

/// The hybrid KEM refused its input.
#[derive(Debug, Clone, Copy, PartialEq, Eq, Structural)]
pub struct HybridError;

impl HybridError {
    /// The error message.
    pub fn to_string(&self) -> (s: String)
        ensures
            s@ == "hybrid KEM error"@,
    {
        "hybrid KEM error".to_owned()
    }
}

/// Public key: X25519 public key and ML-KEM-768 encapsulation key (1184 bytes).
pub struct HybridPublicKey {
    pub x25519: [u8; 32],
    pub ml_kem: Vec<u8>,
}

/// Secret key: X25519 secret and the 64-byte ML-KEM-768 seed the
/// decapsulation key is derived from.
pub struct HybridSecretKey {
    pub x25519: [u8; 32],
    pub ml_kem: Vec<u8>,
}

/// Length of the X25519 part of a ciphertext.
pub const X25519_LEN: usize = 32;

/// Length of the ML-KEM-768 part of a ciphertext.
pub const ML_KEM_CT_LEN: usize = 1088;

/// The combined shared secret of the two component secrets.
pub open spec fn combine_spec(x25519_ss: Seq<u8>, ml_kem_ss: Seq<u8>) -> Seq<u8> {
    hkdf_sha256_spec(None, x25519_ss + ml_kem_ss, hybrid_kem_info_spec(), 64)
}

/// What decapsulating `ct` with the secret key parts `x_sk` and `seed` gives:
/// `None` for a ciphertext or seed of the wrong shape.
pub open spec fn hybrid_decaps_spec(x_sk: Seq<u8>, seed: Seq<u8>, ct: Seq<u8>) -> Option<Seq<u8>> {
    if ct.len() < 32 || seed.len() != 64 || ct.len() - 32 != 1088 {
        None
    } else {
        Some(
            combine_spec(
                x25519_dh_spec(x_sk, ct.subrange(0, 32)),
                mlkem768_decaps_spec(seed, ct.subrange(32, ct.len() as int)),
            ),
        )
    }
}

/// `(ct, shared)` is what encapsulating to the public key parts `x_pk` and
/// `ek` gives with the ephemeral X25519 secret `e` and ML-KEM randomness `m`.
pub open spec fn encaps_with_spec(
    x_pk: Seq<u8>,
    ek: Seq<u8>,
    e: Seq<u8>,
    m: Seq<u8>,
    ct: Seq<u8>,
    shared: Seq<u8>,
) -> bool {
    let (ml_ct, ml_ss) = mlkem768_encaps_spec(ek, m);
    &&& ct.len() == 1120
    &&& ct.subrange(0, 32) == x25519_public_spec(e)
    &&& ct.subrange(32, 1120) == ml_ct
    &&& shared == combine_spec(x25519_dh_spec(e, x_pk), ml_ss)
}

/// ML-KEM decapsulation with `seed` recovers the key that encapsulating to
/// the seed's own key with randomness `m` produced. It holds except with
/// negligible probability; the agreement below is promised where it holds.
pub open spec fn mlkem_recovers(seed: Seq<u8>, m: Seq<u8>) -> bool {
    let (ml_ct, ml_ss) = mlkem768_encaps_spec(mlkem768_ek_spec(seed), m);
    mlkem768_decaps_spec(seed, ml_ct) == ml_ss
}

fn combine_secrets(x25519_ss: &[u8; 32], ml_kem_ss: &[u8; 32]) -> (out: [u8; 64])
    ensures
        out@ == combine_spec(x25519_ss@, ml_kem_ss@),
{
    let mut ikm: Vec<u8> = Vec::with_capacity(64);
    append_bytes(&mut ikm, x25519_ss.as_slice());
    append_bytes(&mut ikm, ml_kem_ss.as_slice());
    let info = hybrid_kem_info();
    let okm = hkdf_sha256(None, ikm.as_slice(), info.as_slice(), 64);
    array64_at(okm.as_slice(), 0)
}

/// Generates a fresh key pair from the operating system's randomness.
pub fn hybrid_keygen() -> (r: (HybridPublicKey, HybridSecretKey))
    ensures
        r.0.x25519@ == x25519_public_spec(r.1.x25519@),
        r.0.ml_kem@ == mlkem768_ek_spec(r.1.ml_kem@),
        r.0.ml_kem@.len() == 1184,
        r.1.ml_kem@.len() == 64,
{
    let mut x_sk = [0u8; 32];
    fill_random(vstd::array::ref_mut_array_unsizing_coercion(&mut x_sk));
    let x_pk = x25519_public(&x_sk);
    let mut seed = [0u8; 64];
    fill_random(vstd::array::ref_mut_array_unsizing_coercion(&mut seed));
    let ek = mlkem768_encapsulation_key(&seed);
    (
        HybridPublicKey { x25519: x_pk, ml_kem: ek },
        HybridSecretKey { x25519: x_sk, ml_kem: bytes_to_vec(seed.as_slice()) },
    )
}

/// Encapsulation with the given ephemeral secret and ML-KEM randomness;
/// `None` exactly when ML-KEM refuses the encapsulation key.
fn encaps_with(pk: &HybridPublicKey, e: &[u8; 32], m: &[u8; 32]) -> (r: Option<(Vec<u8>, [u8; 64])>)
    ensures
        r is Some <==> mlkem768_ek_accepted(pk.ml_kem@),
        r matches Some((ct, shared)) ==> encaps_with_spec(pk.x25519@, pk.ml_kem@, e@, m@, ct@, shared@),
{
    let eph_pk = x25519_public(e);
    let x_ss = x25519_dh(e, &pk.x25519);
    match mlkem768_encapsulate(pk.ml_kem.as_slice(), m) {
        None => None,
        Some((ml_ct, ml_ss)) => {
            let shared = combine_secrets(&x_ss, &ml_ss);
            let mut ct: Vec<u8> = Vec::with_capacity(X25519_LEN + ml_ct.len());
            append_bytes(&mut ct, eph_pk.as_slice());
            append_bytes(&mut ct, ml_ct.as_slice());
            assert(ct@.subrange(0, 32) =~= eph_pk@);
            assert(ct@.subrange(32, 1120) =~= ml_ct@);
            Some((ct, shared))
        },
    }
}

/// Encapsulates a fresh shared secret to `pk`: returns the ciphertext
/// `ephemeral_x25519_pk || ml_kem_ct` and the 64-byte shared secret.
pub fn hybrid_encaps(pk: &HybridPublicKey) -> (r: (Vec<u8>, [u8; 64]))
    requires
        mlkem768_ek_accepted(pk.ml_kem@),
    ensures
        exists|e: Seq<u8>, m: Seq<u8>|
            e.len() == 32 && m.len() == 32 && #[trigger] encaps_with_spec(
                pk.x25519@,
                pk.ml_kem@,
                e,
                m,
                r.0@,
                r.1@,
            ),
{
    let mut e = [0u8; 32];
    fill_random(vstd::array::ref_mut_array_unsizing_coercion(&mut e));
    let mut m = [0u8; 32];
    fill_random(vstd::array::ref_mut_array_unsizing_coercion(&mut m));
    let r = encaps_with(pk, &e, &m);
    match r {
        Some(res) => {
            assert(encaps_with_spec(pk.x25519@, pk.ml_kem@, e@, m@, res.0@, res.1@));
            res
        },
        None => {
            assert(false);
            (Vec::new(), [0u8; 64])
        },
    }
}

/// [`hybrid_encaps`] for a public key that has not been checked: `None`
/// when ML-KEM refuses its encapsulation key.
pub fn hybrid_encaps_checked(pk: &HybridPublicKey) -> (r: Option<(Vec<u8>, [u8; 64])>)
    ensures
        r is Some <==> mlkem768_ek_accepted(pk.ml_kem@),
        r matches Some(p) ==> exists|e: Seq<u8>, m: Seq<u8>|
            e.len() == 32 && m.len() == 32 && #[trigger] encaps_with_spec(
                pk.x25519@,
                pk.ml_kem@,
                e,
                m,
                p.0@,
                p.1@,
            ),
{
    if mlkem768_ek_check(pk.ml_kem.as_slice()) {
        let (ct, shared) = hybrid_encaps(pk);
        let ghost (e, m) = choose|e: Seq<u8>, m: Seq<u8>|
                e.len() == 32 && m.len() == 32 && #[trigger] encaps_with_spec(
                    pk.x25519@,
                    pk.ml_kem@,
                    e,
                    m,
                    ct@,
                    shared@,
                );
        let r = Some((ct, shared));
        assert(encaps_with_spec(pk.x25519@, pk.ml_kem@, e, m, r.unwrap().0@, r.unwrap().1@));
        r
    } else {
        None
    }
}

/// Decapsulates `ct` with `sk`. Fails on a ciphertext shorter than the
/// X25519 part, a seed that is not 64 bytes, or an ML-KEM part that is not
/// 1088 bytes. A wrong key is not detected: ML-KEM's implicit rejection
/// gives an unrelated secret.
///
/// Both sides agree: for a ciphertext that encapsulating to the public half
/// of `sk` produced, the result is the sender's shared secret, wherever
/// ML-KEM decapsulation recovers its key.
pub fn hybrid_decaps(sk: &HybridSecretKey, ct: &[u8]) -> (r: Result<[u8; 64], HybridError>)
    ensures
        r is Ok <==> hybrid_decaps_spec(sk.x25519@, sk.ml_kem@, ct@) is Some,
        r matches Ok(s) ==> hybrid_decaps_spec(sk.x25519@, sk.ml_kem@, ct@) == Some(s@),
        forall|e: Seq<u8>, m: Seq<u8>, shared: Seq<u8>|
            e.len() == 32 && sk.ml_kem@.len() == 64 && #[trigger] encaps_with_spec(
                x25519_public_spec(sk.x25519@),
                mlkem768_ek_spec(sk.ml_kem@),
                e,
                m,
                ct@,
                shared,
            ) && mlkem_recovers(sk.ml_kem@, m) ==> (r matches Ok(s) && s@ == shared),
{
    if ct.len() < X25519_LEN {
        return Err(HybridError);
    }
    let eph_pk = array32_at(ct, 0);
    let x_ss = x25519_dh(&sk.x25519, &eph_pk);
    if sk.ml_kem.len() != 64 {
        return Err(HybridError);
    }
    let seed = array64_at(sk.ml_kem.as_slice(), 0);
    assert(seed@ =~= sk.ml_kem@);
    let ml_ct = slice_from(ct, X25519_LEN);
    match mlkem768_decapsulate(&seed, ml_ct.as_slice()) {
        None => Err(HybridError),
        Some(ml_ss) => {
            let out = combine_secrets(&x_ss, &ml_ss);
            proof {
                assert forall|e: Seq<u8>, m: Seq<u8>, shared: Seq<u8>|
                    e.len() == 32 && sk.ml_kem@.len() == 64 && #[trigger] encaps_with_spec(
                        x25519_public_spec(sk.x25519@),
                        mlkem768_ek_spec(sk.ml_kem@),
                        e,
                        m,
                        ct@,
                        shared,
                    ) && mlkem_recovers(sk.ml_kem@, m) implies out@ == shared by {
                    assert(eph_pk@ == x25519_public_spec(e));
                    assert(x_ss@ == x25519_dh_spec(e, x25519_public_spec(sk.x25519@)));
                    assert(ml_ct@ =~= ct@.subrange(32, 1120));
                }
            }
            Ok(out)
        },
    }
}

/// The bytes of `s` from `start` on.
fn slice_from(s: &[u8], start: usize) -> (v: Vec<u8>)
    requires
        start <= s@.len(),
    ensures
        v@ == s@.subrange(start as int, s@.len() as int),
{
    let mut v: Vec<u8> = Vec::with_capacity(s.len() - start);
    let mut i = start;
    while i < s.len()
        invariant
            start <= i <= s@.len(),
            v@ == s@.subrange(start as int, i as int),
        decreases s@.len() - i,
    {
        v.push(s[i]);
        i = i + 1;
        assert(v@ =~= s@.subrange(start as int, i as int));
    }
    v
}

} // verus!
