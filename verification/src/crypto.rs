//! The cryptographic primitives this library builds on, each behind one
//! trusted wrapper around the outside crate that implements it.
//!
//! A primitive whose output is a fixed function of its inputs (a hash, a MAC,
//! a key derivation, a Diffie-Hellman agreement, an AEAD) gets a name for that
//! function; the wrapper promises only that its result is the name applied to
//! its arguments, plus the few documented facts the protocol relies on (the
//! Diffie-Hellman agreement, that an AEAD opens what it sealed, output
//! lengths). Randomness gets no name.

use vstd::prelude::*;

use chacha20poly1305::aead::{Aead, KeyInit, Payload};
use hkdf::Hkdf;
use hmac::{Hmac, Mac};
use rand_core::RngCore;
use sha2::{Digest, Sha256};
use ml_kem::{Decapsulate, KeyExport};
use zeroize::Zeroize;

verus! {

/// SHA-256 of a byte string.
pub uninterp spec fn sha256_spec(data: Seq<u8>) -> Seq<u8>;

/// HMAC-SHA256 of `msg` under `key`.
pub uninterp spec fn hmac_sha256_spec(key: Seq<u8>, msg: Seq<u8>) -> Seq<u8>;

/// HKDF-SHA256 (RFC 5869): extract with `salt`, expand `len` bytes with `info`.
pub uninterp spec fn hkdf_sha256_spec(salt: Option<Seq<u8>>, ikm: Seq<u8>, info: Seq<u8>, len: nat) -> Seq<u8>;

/// The X25519 public key of a 32-byte secret.
pub uninterp spec fn x25519_public_spec(secret: Seq<u8>) -> Seq<u8>;

/// The X25519 shared secret of our `secret` and their `public` key.
pub uninterp spec fn x25519_dh_spec(secret: Seq<u8>, public: Seq<u8>) -> Seq<u8>;

/// XChaCha20-Poly1305 ciphertext (with tag) of `pt` under `key`, `nonce`, `ad`.
pub uninterp spec fn xchacha_seal_spec(key: Seq<u8>, nonce: Seq<u8>, pt: Seq<u8>, ad: Seq<u8>) -> Seq<u8>;

/// XChaCha20-Poly1305 opening of `ct`: the plaintext, or `None` if it does not
/// authenticate.
pub uninterp spec fn xchacha_open_spec(key: Seq<u8>, nonce: Seq<u8>, ct: Seq<u8>, ad: Seq<u8>) -> Option<Seq<u8>>;

/// ChaCha20-Poly1305 (RFC 8439) ciphertext of `pt`, empty associated data.
pub uninterp spec fn chacha_seal_spec(key: Seq<u8>, nonce: Seq<u8>, pt: Seq<u8>) -> Seq<u8>;

/// ChaCha20-Poly1305 opening of `ct`, empty associated data.
pub uninterp spec fn chacha_open_spec(key: Seq<u8>, nonce: Seq<u8>, ct: Seq<u8>) -> Option<Seq<u8>>;

/// Whether `sig` is a strictly valid Ed25519 signature of `msg` under the
/// encoded public key `pk` (`verify_strict`; an undecodable key never is).
pub uninterp spec fn ed25519_strict_valid(pk: Seq<u8>, msg: Seq<u8>, sig: Seq<u8>) -> bool;

/// The ML-KEM-768 encapsulation key derived from a 64-byte seed.
pub uninterp spec fn mlkem768_ek_spec(seed: Seq<u8>) -> Seq<u8>;

/// Whether ML-KEM-768 accepts `ek` as an encapsulation key.
pub uninterp spec fn mlkem768_ek_accepted(ek: Seq<u8>) -> bool;

/// ML-KEM-768 encapsulation to `ek` with the 32 random bytes `m`:
/// `(ciphertext, shared key)`.
pub uninterp spec fn mlkem768_encaps_spec(ek: Seq<u8>, m: Seq<u8>) -> (Seq<u8>, Seq<u8>);

/// ML-KEM-768 decapsulation of a 1088-byte ciphertext with the key of `seed`.
pub uninterp spec fn mlkem768_decaps_spec(seed: Seq<u8>, ct: Seq<u8>) -> Seq<u8>;

/// Largest plaintext either ChaCha20-Poly1305 variant accepts, in bytes:
/// one byte less than 2^32 - 1 blocks of 64 bytes, which it refuses.
pub open spec fn aead_max_plaintext() -> nat {
    274877906879
}

/// SHA-256 of `data`. Calls `sha2::Sha256::digest`.
#[verifier::external_body]
pub fn sha256(data: &[u8]) -> (d: [u8; 32])
    ensures
        d@ == sha256_spec(data@),
{
    Sha256::digest(data).into()
}

/// HMAC-SHA256 of `msg` under `key`. Calls `hmac::Mac::new_from_slice`, which
/// accepts a key of any length, then `update` and `finalize`.
#[verifier::external_body]
pub fn hmac_sha256(key: &[u8], msg: &[u8]) -> (t: [u8; 32])
    ensures
        t@ == hmac_sha256_spec(key@, msg@),
{
    let mut mac = <Hmac<Sha256> as Mac>::new_from_slice(key).expect("HMAC takes any key length");
    mac.update(msg);
    mac.finalize().into_bytes().into()
}

/// HKDF-SHA256 with an optional salt. Calls `hkdf::Hkdf::<Sha256>::new` and
/// `expand`, which fails only above 255 * 32 output bytes.
#[verifier::external_body]
pub fn hkdf_sha256(salt: Option<&[u8]>, ikm: &[u8], info: &[u8], len: usize) -> (okm: Vec<u8>)
    requires
        len <= 8160,
    ensures
        okm@.len() == len,
        okm@ == hkdf_sha256_spec(
            match salt {
                Some(s) => Some(s@),
                None => None,
            },
            ikm@,
            info@,
            len as nat,
        ),
{
    let hk = Hkdf::<Sha256>::new(salt, ikm);
    let mut okm = vec![0u8; len];
    hk.expand(info, &mut okm).expect("length checked by the caller");
    okm
}

/// The X25519 public key of `secret`. Calls `x25519_dalek::PublicKey::from`.
#[verifier::external_body]
pub fn x25519_public(secret: &[u8; 32]) -> (pk: [u8; 32])
    ensures
        pk@ == x25519_public_spec(secret@),
{
    x25519_dalek::PublicKey::from(&x25519_dalek::StaticSecret::from(*secret)).to_bytes()
}

/// The X25519 agreement of `secret` with `public`. Calls
/// `x25519_dalek::StaticSecret::diffie_hellman`. Besides naming the result it
/// states the Diffie-Hellman property: against a public key made from another
/// secret, the result is what that other secret computes against ours.
#[verifier::external_body]
pub fn x25519_dh(secret: &[u8; 32], public: &[u8; 32]) -> (ss: [u8; 32])
    ensures
        ss@ == x25519_dh_spec(secret@, public@),
        forall|other: Seq<u8>|
            other.len() == 32 && public@ == x25519_public_spec(other) ==> ss@ == x25519_dh_spec(
                other,
                x25519_public_spec(secret@),
            ),
{
    x25519_dalek::StaticSecret::from(*secret).diffie_hellman(
        &x25519_dalek::PublicKey::from(*public),
    ).to_bytes()
}

/// Fills `buf` from the operating system's random source. Calls
/// `rand_core::OsRng::fill_bytes`. Nothing is stated of the bytes.
#[verifier::external_body]
pub fn fill_random(buf: &mut [u8])
    ensures
        final(buf)@.len() == old(buf)@.len(),
{
    rand_core::OsRng.fill_bytes(buf)
}

/// Overwrites a 32-byte key with zeros in a way the compiler keeps. Calls
/// `zeroize::Zeroize::zeroize`.
#[verifier::external_body]
pub fn wipe32(k: &mut [u8; 32])
    ensures
        final(k)@ == Seq::new(32, |i: int| 0u8),
{
    k.zeroize()
}

/// XChaCha20-Poly1305 encryption. Calls `XChaCha20Poly1305::encrypt`, which
/// fails only for a plaintext of 2^32 - 1 blocks of 64 bytes or more, that
/// is, longer than [`aead_max_plaintext`]. The ciphertext is the
/// plaintext length plus a 16-byte tag.
#[verifier::external_body]
pub fn xchacha_seal(key: &[u8; 32], nonce: &[u8; 24], pt: &[u8], ad: &[u8]) -> (ct: Vec<u8>)
    requires
        pt@.len() <= aead_max_plaintext(),
    ensures
        ct@ == xchacha_seal_spec(key@, nonce@, pt@, ad@),
        ct@.len() == pt@.len() + 16,
{
    let cipher = chacha20poly1305::XChaCha20Poly1305::new(key.into());
    cipher.encrypt(nonce.into(), Payload { msg: pt, aad: ad }).expect("plaintext within the limit")
}

/// XChaCha20-Poly1305 decryption. Calls `XChaCha20Poly1305::decrypt`. It opens
/// what the same key, nonce and associated data sealed, for a plaintext
/// within the length limit.
#[verifier::external_body]
pub fn xchacha_open(key: &[u8; 32], nonce: &[u8], ct: &[u8], ad: &[u8]) -> (pt: Option<Vec<u8>>)
    requires
        nonce@.len() == 24,
    ensures
        pt is Some <==> xchacha_open_spec(key@, nonce@, ct@, ad@) is Some,
        pt matches Some(p) ==> xchacha_open_spec(key@, nonce@, ct@, ad@) == Some(p@),
        forall|m: Seq<u8>|
            m.len() <= aead_max_plaintext() && ct@ == xchacha_seal_spec(key@, nonce@, m, ad@) ==> (
            pt is Some && pt.unwrap()@ == m),
{
    let cipher = chacha20poly1305::XChaCha20Poly1305::new(key.into());
    cipher.decrypt(chacha20poly1305::XNonce::from_slice(nonce), Payload { msg: ct, aad: ad }).ok()
}

/// ChaCha20-Poly1305 encryption with empty associated data. Calls
/// `ChaCha20Poly1305::encrypt`, which fails only for a plaintext of 2^32 - 1
/// blocks of 64 bytes or more, that is, longer than [`aead_max_plaintext`].
#[verifier::external_body]
pub fn chacha_seal(key: &[u8; 32], nonce: &[u8; 12], pt: &[u8]) -> (ct: Vec<u8>)
    requires
        pt@.len() <= aead_max_plaintext(),
    ensures
        ct@ == chacha_seal_spec(key@, nonce@, pt@),
        ct@.len() == pt@.len() + 16,
{
    let cipher = chacha20poly1305::ChaCha20Poly1305::new(key.into());
    cipher.encrypt(nonce.into(), pt).expect("plaintext within the limit")
}

/// ChaCha20-Poly1305 decryption with empty associated data. Calls
/// `ChaCha20Poly1305::decrypt`. It opens what the same key and nonce sealed,
/// for a plaintext within the length limit.
#[verifier::external_body]
pub fn chacha_open(key: &[u8; 32], nonce: &[u8; 12], ct: &[u8]) -> (pt: Option<Vec<u8>>)
    ensures
        pt is Some <==> chacha_open_spec(key@, nonce@, ct@) is Some,
        pt matches Some(p) ==> chacha_open_spec(key@, nonce@, ct@) == Some(p@),
        forall|m: Seq<u8>|
            m.len() <= aead_max_plaintext() && ct@ == chacha_seal_spec(key@, nonce@, m) ==> (
            pt is Some && pt.unwrap()@ == m),
{
    let cipher = chacha20poly1305::ChaCha20Poly1305::new(key.into());
    cipher.decrypt(nonce.into(), ct).ok()
}

/// Strict Ed25519 verification. Calls `ed25519_dalek::VerifyingKey::verify_strict`
/// after decoding the key with `VerifyingKey::from_bytes`; a key that does not
/// decode verifies nothing.
#[verifier::external_body]
pub fn ed25519_verify_strict(pk: &[u8; 32], msg: &[u8], sig: &[u8; 64]) -> (ok: bool)
    ensures
        ok == ed25519_strict_valid(pk@, msg@, sig@),
{
    match ed25519_dalek::VerifyingKey::from_bytes(pk) {
        Ok(vk) => vk.verify_strict(msg, &ed25519_dalek::Signature::from_bytes(sig)).is_ok(),
        Err(_) => false,
    }
}

/// The ML-KEM-768 encapsulation key of a seed. Calls
/// `ml_kem::DecapsulationKey768::from_seed`, then `encapsulation_key` and
/// `to_bytes`; the key is 1184 bytes.
#[verifier::external_body]
pub fn mlkem768_encapsulation_key(seed: &[u8; 64]) -> (ek: Vec<u8>)
    ensures
        ek@ == mlkem768_ek_spec(seed@),
        ek@.len() == 1184,
{
    let dk = ml_kem::DecapsulationKey768::from_seed((*seed).into());
    dk.encapsulation_key().to_bytes().as_slice().to_vec()
}

/// Whether ML-KEM-768 accepts `ek`: it must be 1184 bytes and pass the
/// validation `ml_kem::EncapsulationKey768::new` performs while decoding.
#[verifier::external_body]
pub fn mlkem768_ek_check(ek: &[u8]) -> (ok: bool)
    ensures
        ok == mlkem768_ek_accepted(ek@),
{
    let key: Result<ml_kem::Key<ml_kem::EncapsulationKey768>, _> = ek.try_into();
    match key {
        Ok(k) => ml_kem::EncapsulationKey768::new(&k).is_ok(),
        Err(_) => false,
    }
}

/// ML-KEM-768 encapsulation with the caller's randomness `m`. Calls
/// `ml_kem::EncapsulationKey768::new` (which rejects a key that is not 1184
/// bytes or fails validation) and `encapsulate_deterministic`. The ciphertext
/// is 1088 bytes.
#[verifier::external_body]
pub fn mlkem768_encapsulate(ek: &[u8], m: &[u8; 32]) -> (r: Option<(Vec<u8>, [u8; 32])>)
    ensures
        r is Some <==> mlkem768_ek_accepted(ek@),
        r is Some ==> ek@.len() == 1184,
        r matches Some((ct, ss)) ==> (ct@, ss@) == mlkem768_encaps_spec(ek@, m@) && ct@.len()
            == 1088,
{
    let key: ml_kem::Key<ml_kem::EncapsulationKey768> = ek.try_into().ok()?;
    let ek = ml_kem::EncapsulationKey768::new(&key).ok()?;
    let (ct, ss) = ek.encapsulate_deterministic(&(*m).into());
    Some((ct.as_slice().to_vec(), ss.into()))
}

/// ML-KEM-768 decapsulation. Calls `ml_kem::DecapsulationKey768::from_seed`
/// and `decapsulate`; a ciphertext that is not 1088 bytes is refused when it
/// is converted.
#[verifier::external_body]
pub fn mlkem768_decapsulate(seed: &[u8; 64], ct: &[u8]) -> (ss: Option<[u8; 32]>)
    ensures
        ss is Some <==> ct@.len() == 1088,
        ss matches Some(s) ==> s@ == mlkem768_decaps_spec(seed@, ct@),
{
    let ct: ml_kem::Ciphertext<ml_kem::MlKem768> = ct.try_into().ok()?;
    let dk = ml_kem::DecapsulationKey768::from_seed((*seed).into());
    Some(dk.decapsulate(&ct).into())
}

} // verus!
