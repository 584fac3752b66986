use arcium_core::contact_hash::hash_contact;
use arcium_core::hybrid::{hybrid_decaps, hybrid_encaps, hybrid_encaps_checked, hybrid_keygen, HybridError, HybridPublicKey};
use arcium_core::rescue::RescueCipher;
use arcium_core::session_handle::local_session_handle;
use arcium_core::spk_id::spk_id;
use arcium_core::x3dh::{
    signed_prekey_object_v1, verify_signed_prekey_v1, x3dh_initiate, x3dh_respond, PrekeyBundle,
    X3dhError,
};
use ed25519_dalek::{Signer, SigningKey};
use rand_core::{OsRng, RngCore};
use sha2::{Digest, Sha256};
use x25519_dalek::{PublicKey, StaticSecret};

fn secret() -> [u8; 32] {
    let mut k = [0u8; 32];
    OsRng.fill_bytes(&mut k);
    k
}

fn public_of(sk: &[u8; 32]) -> [u8; 32] {
    PublicKey::from(&StaticSecret::from(*sk)).to_bytes()
}

struct Bob {
    identity_sk: [u8; 32],
    spk_sk: [u8; 32],
    opk_sk: [u8; 32],
    bundle: PrekeyBundle,
}

fn bob(with_opk: bool) -> Bob {
    let identity_sk = secret();
    let spk_sk = secret();
    let opk_sk = secret();
    let signing = SigningKey::from_bytes(&secret());
    let signing_pk = signing.verifying_key().to_bytes();
    let identity_pk = public_of(&identity_sk);
    let spk_pk = public_of(&spk_sk);
    let object = signed_prekey_object_v1(&identity_pk, &signing_pk, &spk_pk);
    let signature = signing.sign(&object).to_bytes();
    Bob {
        identity_sk,
        spk_sk,
        opk_sk,
        bundle: PrekeyBundle {
            identity_pk,
            signing_pk,
            signed_prekey_pk: spk_pk,
            signed_prekey_signature: signature,
            one_time_prekey_pk: if with_opk { Some(public_of(&opk_sk)) } else { None },
            one_time_prekey_id: if with_opk { Some(7) } else { None },
        },
    }
}

#[test]
fn x3dh_both_sides_derive_the_same_root_key() {
    for with_opk in [false, true] {
        let b = bob(with_opk);
        let alice_sk = secret();
        let alice_pk = public_of(&alice_sk);
        let a = x3dh_initiate(&alice_sk, alice_pk, &b.bundle).unwrap();
        let opk = if with_opk { Some(&b.opk_sk) } else { None };
        let s = x3dh_respond(&b.identity_sk, b.bundle.identity_pk, &b.spk_sk, opk, alice_pk, a.ephemeral_pk);
        assert_eq!(a.root_key, s.root_key);
        assert_eq!(a.ad, s.ad);
        let mut ad = alice_pk.to_vec();
        ad.extend_from_slice(&b.bundle.identity_pk);
        assert_eq!(a.ad, ad, "initiator key first, then responder key");
    }
}

#[test]
fn x3dh_refuses_a_bundle_with_a_bad_signature() {
    let mut b = bob(false);
    b.bundle.signed_prekey_signature[0] ^= 1;
    assert_eq!(verify_signed_prekey_v1(&b.bundle), Err(X3dhError::BadSignature));
    assert!(matches!(x3dh_initiate(&secret(), [1; 32], &b.bundle), Err(X3dhError::BadSignature)));
}

#[test]
fn x3dh_signature_covers_the_identity_key() {
    let mut b = bob(false);
    assert_eq!(verify_signed_prekey_v1(&b.bundle), Ok(()));
    b.bundle.identity_pk[0] ^= 1;
    assert_eq!(verify_signed_prekey_v1(&b.bundle), Err(X3dhError::BadSignature));
}

#[test]
fn signed_prekey_object_layout() {
    let o = signed_prekey_object_v1(&[1; 32], &[2; 32], &[3; 32]);
    assert_eq!(&o[..18], b"arcium/x3dh-spk/v1");
    assert_eq!(o[18], 0x01);
    assert_eq!(o[19], 0x01);
    assert_eq!(&o[20..52], &[1; 32]);
    assert_eq!(&o[52..84], &[2; 32]);
    assert_eq!(&o[84..116], &[3; 32]);
}

#[test]
fn hybrid_encapsulation_agrees_with_decapsulation() {
    let (pk, sk) = hybrid_keygen();
    assert_eq!(pk.ml_kem.len(), 1184);
    assert_eq!(sk.ml_kem.len(), 64);
    assert_eq!(pk.x25519, public_of(&sk.x25519));
    let (ct, shared) = hybrid_encaps(&pk);
    assert_eq!(ct.len(), 32 + 1088);
    assert_eq!(hybrid_decaps(&sk, &ct).unwrap(), shared);
}

#[test]
fn hybrid_wrong_secret_key_gives_another_secret() {
    let (pk, _) = hybrid_keygen();
    let (_, sk2) = hybrid_keygen();
    let (ct, shared) = hybrid_encaps(&pk);
    assert_ne!(hybrid_decaps(&sk2, &ct).unwrap(), shared);
}

#[test]
fn hybrid_decapsulation_refuses_malformed_input() {
    let (pk, sk) = hybrid_keygen();
    let (ct, _) = hybrid_encaps(&pk);
    assert_eq!(hybrid_decaps(&sk, &ct[..31]), Err(HybridError));
    assert_eq!(hybrid_decaps(&sk, &ct[..ct.len() - 1]), Err(HybridError));
    let short_seed = arcium_core::hybrid::HybridSecretKey { x25519: sk.x25519, ml_kem: vec![0u8; 63] };
    assert_eq!(hybrid_decaps(&short_seed, &ct), Err(HybridError));
}

#[test]
fn hybrid_checked_encapsulation_refuses_a_bad_key() {
    let bad = HybridPublicKey { x25519: [1; 32], ml_kem: vec![0u8; 100] };
    assert!(hybrid_encaps_checked(&bad).is_none());
    let (pk, sk) = hybrid_keygen();
    let (ct, shared) = hybrid_encaps_checked(&pk).unwrap();
    assert_eq!(hybrid_decaps(&sk, &ct).unwrap(), shared);
}

#[test]
fn rescue_round_trip_and_failure_modes() {
    let cipher = RescueCipher::from_shared_secret(&[42u8; 32]);
    let ct = cipher.encrypt(b"contact", &[1u8; 16]);
    assert_eq!(ct.len(), 7 + 16);
    assert_eq!(cipher.decrypt(&ct, &[1u8; 16]).unwrap(), b"contact");
    assert_ne!(ct, cipher.encrypt(b"contact", &[2u8; 16]));
    // Only the first 12 nonce bytes are used.
    let mut nonce = [1u8; 16];
    nonce[15] = 9;
    assert_eq!(ct, cipher.encrypt(b"contact", &nonce));
    let wrong = RescueCipher::from_shared_secret(&[0u8; 32]);
    assert!(wrong.decrypt(&ct, &[1u8; 16]).is_err());
}

#[test]
fn contact_hash_is_the_little_endian_digest_prefix() {
    let phone = "+1234567890";
    let d = Sha256::digest(phone.as_bytes());
    let expected = u64::from_le_bytes(d[..8].try_into().unwrap());
    assert_eq!(hash_contact(phone), expected);
    assert_ne!(hash_contact("+1234567891"), expected);
}

#[test]
fn session_handle_is_the_domain_separated_little_endian_prefix() {
    let pk = [0x5au8; 32];
    let mut h = Sha256::new();
    h.update(b"arcium/local-session-handle/v1");
    h.update(pk);
    let d = h.finalize();
    assert_eq!(local_session_handle(&pk), u64::from_le_bytes(d[..8].try_into().unwrap()));
}

#[test]
fn spk_id_is_the_domain_separated_digest_prefix() {
    let pk = [0x2au8; 32];
    let mut h = Sha256::new();
    h.update(b"arcium/x3dh-spk-id/v1");
    h.update(pk);
    let d = h.finalize();
    assert_eq!(&spk_id(&pk)[..], &d[..8]);
    assert_ne!(spk_id(&[1; 32]), spk_id(&[2; 32]));
}
