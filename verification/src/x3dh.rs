//! X3DH initial key agreement (`ARCIUM_X3DH_FORMAT_V1`).
//!
//! Keys are carried as their 32-byte encodings: X25519 secrets and public
//! keys, the Ed25519 verifying key, and the 64-byte Ed25519 signature.

use vstd::prelude::*;

use crate::buf::{append_bytes, array32_at};
use crate::crypto::{
    ed25519_strict_valid, ed25519_verify_strict, fill_random, hkdf_sha256, hkdf_sha256_spec,
    x25519_dh, x25519_dh_spec, x25519_public, x25519_public_spec,
};
use crate::ratchet::opt_key;
use crate::labels::{spk_object_domain, spk_object_domain_spec, x3dh_info, x3dh_info_spec};

verus! {

/// Protocol version carried by `ARCIUM_X3DH_FORMAT_V1` structures.
pub const PROTOCOL_VERSION: u8 = 0x01;

/// Cipher suite: X25519, Ed25519, XChaCha20-Poly1305, HKDF-SHA256.
pub const CIPHER_SUITE: u8 = 0x01;

/// Size of the byte string a signed prekey's signature covers.
pub const SIGNED_PREKEY_OBJECT_LEN: usize = 116;

#[derive(Debug, Clone, Copy, PartialEq, Eq, Structural)]
pub enum X3dhError {
    /// Signed prekey signature verification failed.
    BadSignature,
}

impl X3dhError {
    /// The error message.
    pub fn to_string(&self) -> (s: String)
        ensures
            s@ == "signed prekey signature verification failed"@,
    {
        "signed prekey signature verification failed".to_owned()
    }
}

pub struct PrekeyBundle {
    /// X25519 identity public key.
    pub identity_pk: [u8; 32],
    /// Ed25519 verifying key.
    pub signing_pk: [u8; 32],
    /// X25519 signed prekey.
    pub signed_prekey_pk: [u8; 32],
    /// Ed25519 signature over [`signed_prekey_object_v1`].
    pub signed_prekey_signature: [u8; 64],
    pub one_time_prekey_pk: Option<[u8; 32]>,
    /// Opaque identifier of `one_time_prekey_pk`; present exactly when it is.
    pub one_time_prekey_id: Option<u64>,
}

/// The byte string a signed prekey's signature covers:
/// `domain(18) || version(1) || suite(1) || identity_dh_pk || signing_pk || signed_prekey_pk`.
pub open spec fn spk_object_spec(identity: Seq<u8>, signing: Seq<u8>, spk: Seq<u8>) -> Seq<u8> {
    spk_object_domain_spec() + seq![1u8, 1u8] + identity + signing + spk
}

/// The all-`0xFF` prefix of the X3DH input key material.
pub open spec fn ff32() -> Seq<u8> {
    Seq::new(32, |i: int| 0xffu8)
}

/// The X3DH root key from the DH outputs (HKDF-SHA256, zero salt).
pub open spec fn x3dh_root_spec(dh1: Seq<u8>, dh2: Seq<u8>, dh3: Seq<u8>, dh4: Option<Seq<u8>>) -> Seq<
    u8,
> {
    hkdf_sha256_spec(
        Some(Seq::new(32, |i: int| 0u8)),
        ff32() + dh1 + dh2 + dh3 + match dh4 {
            Some(d) => d,
            None => Seq::empty(),
        },
        x3dh_info_spec(),
        32,
    )
}

/// The root key an initiator with identity secret `a` and ephemeral secret
/// `e` derives against a responder's identity, signed prekey and optional
/// one-time prekey.
pub open spec fn initiator_root(
    a: Seq<u8>,
    e: Seq<u8>,
    their_identity: Seq<u8>,
    their_spk: Seq<u8>,
    their_opk: Option<Seq<u8>>,
) -> Seq<u8> {
    x3dh_root_spec(
        x25519_dh_spec(a, their_spk),
        x25519_dh_spec(e, their_identity),
        x25519_dh_spec(e, their_spk),
        match their_opk {
            Some(o) => Some(x25519_dh_spec(e, o)),
            None => None,
        },
    )
}

/// The public key of an optional one-time prekey secret.
pub open spec fn opt_public(o: Option<&[u8; 32]>) -> Option<Seq<u8>> {
    match o {
        Some(k) => Some(x25519_public_spec(k@)),
        None => None,
    }
}

/// Builds the byte string a signed prekey's signature covers. Never
/// transmitted: both sides rebuild it from bundle fields.
pub fn signed_prekey_object_v1(
    identity_dh_pk: &[u8; 32],
    signing_pk: &[u8; 32],
    signed_prekey_pk: &[u8; 32],
) -> (out: [u8; 116])
    ensures
        out@ == spk_object_spec(identity_dh_pk@, signing_pk@, signed_prekey_pk@),
{
    let d = spk_object_domain();
    let out = [
        d[0], d[1], d[2], d[3], d[4], d[5],
        d[6], d[7], d[8], d[9], d[10], d[11],
        d[12], d[13], d[14], d[15], d[16], d[17],
        PROTOCOL_VERSION, CIPHER_SUITE, identity_dh_pk[0], identity_dh_pk[1], identity_dh_pk[2], identity_dh_pk[3],
        identity_dh_pk[4], identity_dh_pk[5], identity_dh_pk[6], identity_dh_pk[7], identity_dh_pk[8], identity_dh_pk[9],
        identity_dh_pk[10], identity_dh_pk[11], identity_dh_pk[12], identity_dh_pk[13], identity_dh_pk[14], identity_dh_pk[15],
        identity_dh_pk[16], identity_dh_pk[17], identity_dh_pk[18], identity_dh_pk[19], identity_dh_pk[20], identity_dh_pk[21],
        identity_dh_pk[22], identity_dh_pk[23], identity_dh_pk[24], identity_dh_pk[25], identity_dh_pk[26], identity_dh_pk[27],
        identity_dh_pk[28], identity_dh_pk[29], identity_dh_pk[30], identity_dh_pk[31], signing_pk[0], signing_pk[1],
        signing_pk[2], signing_pk[3], signing_pk[4], signing_pk[5], signing_pk[6], signing_pk[7],
        signing_pk[8], signing_pk[9], signing_pk[10], signing_pk[11], signing_pk[12], signing_pk[13],
        signing_pk[14], signing_pk[15], signing_pk[16], signing_pk[17], signing_pk[18], signing_pk[19],
        signing_pk[20], signing_pk[21], signing_pk[22], signing_pk[23], signing_pk[24], signing_pk[25],
        signing_pk[26], signing_pk[27], signing_pk[28], signing_pk[29], signing_pk[30], signing_pk[31],
        signed_prekey_pk[0], signed_prekey_pk[1], signed_prekey_pk[2], signed_prekey_pk[3], signed_prekey_pk[4], signed_prekey_pk[5],
        signed_prekey_pk[6], signed_prekey_pk[7], signed_prekey_pk[8], signed_prekey_pk[9], signed_prekey_pk[10], signed_prekey_pk[11],
        signed_prekey_pk[12], signed_prekey_pk[13], signed_prekey_pk[14], signed_prekey_pk[15], signed_prekey_pk[16], signed_prekey_pk[17],
        signed_prekey_pk[18], signed_prekey_pk[19], signed_prekey_pk[20], signed_prekey_pk[21], signed_prekey_pk[22], signed_prekey_pk[23],
        signed_prekey_pk[24], signed_prekey_pk[25], signed_prekey_pk[26], signed_prekey_pk[27], signed_prekey_pk[28], signed_prekey_pk[29],
        signed_prekey_pk[30], signed_prekey_pk[31],
    ];
    assert(out@ =~= spk_object_spec(identity_dh_pk@, signing_pk@, signed_prekey_pk@));
    out
}

/// Verifies a bundle's signed-prekey signature over
/// [`signed_prekey_object_v1`], with strict Ed25519 verification.
pub fn verify_signed_prekey_v1(bundle: &PrekeyBundle) -> (r: Result<(), X3dhError>)
    ensures
        r is Ok <==> ed25519_strict_valid(
            bundle.signing_pk@,
            spk_object_spec(bundle.identity_pk@, bundle.signing_pk@, bundle.signed_prekey_pk@),
            bundle.signed_prekey_signature@,
        ),
        r matches Err(e) ==> e == X3dhError::BadSignature,
{
    let object = signed_prekey_object_v1(
        &bundle.identity_pk,
        &bundle.signing_pk,
        &bundle.signed_prekey_pk,
    );
    if ed25519_verify_strict(
        &bundle.signing_pk,
        object.as_slice(),
        &bundle.signed_prekey_signature,
    ) {
        Ok(())
    } else {
        Err(X3dhError::BadSignature)
    }
}

#[derive(Debug)]
pub struct AliceSession {
    pub root_key: [u8; 32],
    pub ephemeral_pk: [u8; 32],
    pub their_signed_prekey_pk: [u8; 32],
    pub ad: Vec<u8>,
}

fn derive_root(dh1: &[u8; 32], dh2: &[u8; 32], dh3: &[u8; 32], dh4: Option<[u8; 32]>) -> (rk: [u8; 32])
    ensures
        rk@ == x3dh_root_spec(
            dh1@,
            dh2@,
            dh3@,
            match dh4 {
                Some(d) => Some(d@),
                None => None,
            },
        ),
{
    let mut ikm: Vec<u8> = Vec::with_capacity(160);
    let ff = [0xffu8; 32];
    assert(ff@ =~= ff32());
    append_bytes(&mut ikm, ff.as_slice());
    append_bytes(&mut ikm, dh1.as_slice());
    append_bytes(&mut ikm, dh2.as_slice());
    append_bytes(&mut ikm, dh3.as_slice());
    if let Some(d) = dh4 {
        append_bytes(&mut ikm, d.as_slice());
    }
    assert(ikm@ =~= ff32() + dh1@ + dh2@ + dh3@ + match dh4 {
        Some(d) => d@,
        None => Seq::empty(),
    });
    let salt = [0u8; 32];
    assert(salt@ =~= Seq::new(32, |i: int| 0u8));
    let info = x3dh_info();
    let okm = hkdf_sha256(Some(salt.as_slice()), ikm.as_slice(), info.as_slice(), 32);
    array32_at(okm.as_slice(), 0)
}

/// The initiator's side: verifies the responder's bundle and derives the
/// root key with a fresh ephemeral key.
pub fn x3dh_initiate(our_identity_sk: &[u8; 32], our_identity_pk: [u8; 32], bob: &PrekeyBundle) -> (r:
    Result<AliceSession, X3dhError>)
    ensures
        r is Err <==> !ed25519_strict_valid(
            bob.signing_pk@,
            spk_object_spec(bob.identity_pk@, bob.signing_pk@, bob.signed_prekey_pk@),
            bob.signed_prekey_signature@,
        ),
        r matches Err(e) ==> e == X3dhError::BadSignature,
        r matches Ok(s) ==> ({
            &&& s.their_signed_prekey_pk == bob.signed_prekey_pk
            &&& s.ad@ == our_identity_pk@ + bob.identity_pk@
            &&& exists|e: Seq<u8>|
                e.len() == 32 && s.ephemeral_pk@ == x25519_public_spec(e) && s.root_key@
                    == #[trigger] initiator_root(
                    our_identity_sk@,
                    e,
                    bob.identity_pk@,
                    bob.signed_prekey_pk@,
                    opt_key(bob.one_time_prekey_pk),
                )
        }),
{
    verify_signed_prekey_v1(bob)?;
    let mut ephemeral_sk = [0u8; 32];
    fill_random(vstd::array::ref_mut_array_unsizing_coercion(&mut ephemeral_sk));
    let ephemeral_pk = x25519_public(&ephemeral_sk);
    let dh1 = x25519_dh(our_identity_sk, &bob.signed_prekey_pk);
    let dh2 = x25519_dh(&ephemeral_sk, &bob.identity_pk);
    let dh3 = x25519_dh(&ephemeral_sk, &bob.signed_prekey_pk);
    let dh4 = match bob.one_time_prekey_pk {
        Some(opk) => Some(x25519_dh(&ephemeral_sk, &opk)),
        None => None,
    };
    let root_key = derive_root(&dh1, &dh2, &dh3, dh4);
    let mut ad: Vec<u8> = Vec::with_capacity(64);
    append_bytes(&mut ad, our_identity_pk.as_slice());
    append_bytes(&mut ad, bob.identity_pk.as_slice());
    let s = AliceSession {
        root_key,
        ephemeral_pk,
        their_signed_prekey_pk: bob.signed_prekey_pk,
        ad,
    };
    assert(root_key@ == initiator_root(
        our_identity_sk@,
        ephemeral_sk@,
        bob.identity_pk@,
        bob.signed_prekey_pk@,
        opt_key(bob.one_time_prekey_pk),
    ));
    Ok(s)
}

pub struct BobSession {
    pub root_key: [u8; 32],
    pub their_ephemeral_pk: [u8; 32],
    pub ad: Vec<u8>,
}

/// The responder's side. Its root key is the one the initiator derived: for
/// any identity secret `a` and ephemeral secret `e` behind the initiator's
/// public keys, it equals what [`x3dh_initiate`] computes with them against
/// this responder's public keys.
pub fn x3dh_respond(
    our_identity_sk: &[u8; 32],
    our_identity_pk: [u8; 32],
    our_signed_prekey_sk: &[u8; 32],
    our_one_time_prekey_sk: Option<&[u8; 32]>,
    their_identity_pk: [u8; 32],
    their_ephemeral_pk: [u8; 32],
) -> (s: BobSession)
    ensures
        s.their_ephemeral_pk == their_ephemeral_pk,
        s.ad@ == their_identity_pk@ + our_identity_pk@,
        s.root_key@ == x3dh_root_spec(
            x25519_dh_spec(our_signed_prekey_sk@, their_identity_pk@),
            x25519_dh_spec(our_identity_sk@, their_ephemeral_pk@),
            x25519_dh_spec(our_signed_prekey_sk@, their_ephemeral_pk@),
            match our_one_time_prekey_sk {
                Some(o) => Some(x25519_dh_spec(o@, their_ephemeral_pk@)),
                None => None,
            },
        ),
        forall|a: Seq<u8>, e: Seq<u8>|
            a.len() == 32 && e.len() == 32 && their_identity_pk@ == x25519_public_spec(a)
                && their_ephemeral_pk@ == x25519_public_spec(e) ==> s.root_key@
                == #[trigger] initiator_root(
                a,
                e,
                x25519_public_spec(our_identity_sk@),
                x25519_public_spec(our_signed_prekey_sk@),
                opt_public(our_one_time_prekey_sk),
            ),
{
    let dh1 = x25519_dh(our_signed_prekey_sk, &their_identity_pk);
    let dh2 = x25519_dh(our_identity_sk, &their_ephemeral_pk);
    let dh3 = x25519_dh(our_signed_prekey_sk, &their_ephemeral_pk);
    let dh4 = match our_one_time_prekey_sk {
        Some(opk) => Some(x25519_dh(opk, &their_ephemeral_pk)),
        None => None,
    };
    let root_key = derive_root(&dh1, &dh2, &dh3, dh4);
    let mut ad: Vec<u8> = Vec::with_capacity(64);
    append_bytes(&mut ad, their_identity_pk.as_slice());
    append_bytes(&mut ad, our_identity_pk.as_slice());
    BobSession { root_key, their_ephemeral_pk, ad }
}

} // verus!
