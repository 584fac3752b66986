use arcium_core::contact_hash::hash_contact;
use arcium_core::hybrid::{hybrid_decaps, hybrid_encaps, hybrid_keygen};
use arcium_core::rescue::RescueCipher;
use arcium_core::session_handle::local_session_handle;
use arcium_core::spk_id::{spk_id, spk_id_domain_bytes, SPK_ID_LEN};
use sha2::{Digest, Sha256};

// ── contact hashes ──────────────────────────────────────────────────────────

#[test]
fn hash_is_deterministic() {
    assert_eq!(hash_contact("+1234567890"), hash_contact("+1234567890"));
}

#[test]
fn different_inputs_differ() {
    assert_ne!(hash_contact("+1234567890"), hash_contact("+9876543210"));
}

#[test]
fn matches_canonical_vector() {
    assert_eq!(hash_contact("+1234567890"), 5364562789390625858u64);
}

// ── hybrid KEM ──────────────────────────────────────────────────────────────

#[test]
fn keygen_produces_valid_keys() {
    let (pk, sk) = hybrid_keygen();
    assert_eq!(pk.x25519.len(), 32);
    assert_eq!(sk.x25519.len(), 32);
    assert!(!pk.ml_kem.is_empty(), "ML-KEM EK must not be empty");
    assert_eq!(sk.ml_kem.len(), 64, "ML-KEM SK seed is 64 bytes");
}

#[test]
fn encaps_decaps_produce_same_secret() {
    let (pk, sk) = hybrid_keygen();
    let (ct, shared_send) = hybrid_encaps(&pk);
    let shared_recv = hybrid_decaps(&sk, &ct).unwrap();
    assert_eq!(shared_send, shared_recv);
}

#[test]
fn different_keys_produce_different_secrets() {
    let (pk1, _) = hybrid_keygen();
    let (pk2, sk2) = hybrid_keygen();
    let (ct, _) = hybrid_encaps(&pk1);
    let wrong = hybrid_decaps(&sk2, &ct).unwrap();
    let (_, correct) = hybrid_encaps(&pk2);
    assert_ne!(wrong, correct);
}

#[test]
fn wrong_secret_key_fails_decaps() {
    let (pk, _) = hybrid_keygen();
    let (_, sk2) = hybrid_keygen();
    let (ct, shared_correct) = hybrid_encaps(&pk);
    let shared_wrong = hybrid_decaps(&sk2, &ct).unwrap();
    assert_ne!(shared_correct, shared_wrong, "wrong key must yield different shared secret");
}

// ── the PSI cipher ──────────────────────────────────────────────────────────

fn test_key() -> [u8; 32] {
    [42u8; 32]
}

fn test_nonce() -> [u8; 16] {
    [1u8; 16]
}

#[test]
fn encrypt_decrypt_round_trip() {
    let cipher = RescueCipher::from_shared_secret(&test_key());
    let data = b"contact phone hash placeholder";
    let ct = cipher.encrypt(data, &test_nonce());
    let pt = cipher.decrypt(&ct, &test_nonce()).unwrap();
    assert_eq!(pt, data);
}

#[test]
fn different_nonces_produce_different_ciphertexts() {
    let cipher = RescueCipher::from_shared_secret(&test_key());
    let data = b"same contact data";
    let ct1 = cipher.encrypt(data, &[1u8; 16]);
    let ct2 = cipher.encrypt(data, &[2u8; 16]);
    assert_ne!(ct1, ct2);
}

#[test]
fn wrong_key_fails_to_decrypt() {
    let cipher = RescueCipher::from_shared_secret(&test_key());
    let ct = cipher.encrypt(b"secret contact", &test_nonce());
    let wrong = RescueCipher::from_shared_secret(&[0u8; 32]);
    assert!(wrong.decrypt(&ct, &test_nonce()).is_err());
}

// ── local session handles ───────────────────────────────────────────────────

fn key(byte: u8) -> [u8; 32] {
    [byte; 32]
}

#[test]
fn handle_is_deterministic() {
    assert_eq!(local_session_handle(&key(7)), local_session_handle(&key(7)));
}

#[test]
fn different_keys_give_different_handles() {
    assert_ne!(local_session_handle(&key(1)), local_session_handle(&key(2)));
}

#[test]
fn single_bit_flip_changes_the_handle() {
    let mut flipped = key(0);
    flipped[31] = 1;
    assert_ne!(local_session_handle(&key(0)), local_session_handle(&flipped));
}

#[test]
fn domain_separator_is_applied() {
    let pk = key(9);
    let undomained: [u8; 8] = Sha256::digest(pk)[0..8].try_into().unwrap();
    assert_ne!(local_session_handle(&pk), u64::from_le_bytes(undomained));
}

#[test]
fn known_answer_pins_the_derivation() {
    let expected = {
        let mut h = Sha256::new();
        h.update(b"arcium/local-session-handle/v1");
        h.update([0xABu8; 32]);
        let d = h.finalize();
        u64::from_le_bytes(d[0..8].try_into().unwrap())
    };
    assert_eq!(local_session_handle(&key(0xAB)), expected);
}

// ── signed prekey identifiers ───────────────────────────────────────────────

#[test]
fn spk_id_is_eight_bytes_and_deterministic() {
    let pk = key(0x11);
    assert_eq!(spk_id(&pk).len(), SPK_ID_LEN);
    assert_eq!(spk_id(&pk), spk_id(&pk));
}

#[test]
fn spk_id_matches_the_frozen_construction() {
    let pk = key(0x2a);
    let mut expected_hasher = Sha256::new();
    expected_hasher.update(b"arcium/x3dh-spk-id/v1");
    expected_hasher.update(pk);
    let expected_digest = expected_hasher.finalize();
    assert_eq!(spk_id(&pk), expected_digest[0..8]);
}

#[test]
fn a_different_signed_prekey_changes_the_id() {
    assert_ne!(spk_id(&key(1)), spk_id(&key(2)));
    let mut near = key(1);
    near[31] = 2;
    assert_ne!(spk_id(&key(1)), spk_id(&near));
}

#[test]
fn domain_separation_changes_the_result() {
    let pk = key(7);
    let undomained: [u8; 8] = Sha256::digest(pk)[0..8].try_into().unwrap();
    assert_ne!(spk_id(&pk), undomained);
}

#[test]
fn wire_bytes_are_digest_order_and_survive_a_big_endian_round_trip() {
    let pk = key(0x5a);
    let id = spk_id(&pk);
    let digest = {
        let mut h = Sha256::new();
        h.update(spk_id_domain_bytes());
        h.update(pk);
        h.finalize()
    };
    assert_eq!(id, digest[0..8], "id must be the digest prefix, unreversed");
    assert_eq!(u64::from_be_bytes(id).to_be_bytes(), id);
    assert_ne!(
        u64::from_le_bytes(id),
        u64::from_be_bytes(id),
        "test vector must not be byte-order symmetric, or it proves nothing"
    );
}
