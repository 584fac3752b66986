use arcium_core::ratchet::checkpoint::{
    CheckpointError, ENTRY_LEN, FIXED_LEN, RATCHET_CHECKPOINT_MAX_LEN,
};
use arcium_core::ratchet::{
    DoubleRatchet, Header, RatchetError, HEADER_SIZE, MAX_SKIP, MAX_SKIPPED_KEYS, NONCE_SIZE,
};
use arcium_core::x3dh::{
    signed_prekey_object_v1, verify_signed_prekey_v1, x3dh_initiate, x3dh_respond, PrekeyBundle,
    X3dhError, CIPHER_SUITE, PROTOCOL_VERSION,
};
use ed25519_dalek::{Signer, SigningKey, VerifyingKey};
use rand_core::{OsRng, RngCore};
use x25519_dalek::{PublicKey, StaticSecret};

fn secret() -> [u8; 32] {
    let mut k = [0u8; 32];
    OsRng.fill_bytes(&mut k);
    k
}

fn public_of(sk: &[u8; 32]) -> [u8; 32] {
    PublicKey::from(&StaticSecret::from(*sk)).to_bytes()
}

fn signing_key() -> SigningKey {
    SigningKey::from_bytes(&secret())
}

// ── X3DH ────────────────────────────────────────────────────────────────────

struct BobKeys {
    identity_sk: [u8; 32],
    identity_pk: [u8; 32],
    signing_sk: SigningKey,
    signed_prekey_sk: [u8; 32],
    signed_prekey_pk: [u8; 32],
    signed_prekey_sig: [u8; 64],
    one_time_prekey_sk: [u8; 32],
    one_time_prekey_pk: [u8; 32],
}

/// A full set of Bob's key material; the signed prekey is endorsed over
/// the v1 signed-prekey object.
fn make_bob() -> BobKeys {
    let identity_sk = secret();
    let identity_pk = public_of(&identity_sk);
    let signing_sk = signing_key();
    let signed_prekey_sk = secret();
    let signed_prekey_pk = public_of(&signed_prekey_sk);
    let object = signed_prekey_object_v1(
        &identity_pk,
        &signing_sk.verifying_key().to_bytes(),
        &signed_prekey_pk,
    );
    let signed_prekey_sig = signing_sk.sign(&object).to_bytes();
    let one_time_prekey_sk = secret();
    let one_time_prekey_pk = public_of(&one_time_prekey_sk);
    BobKeys {
        identity_sk,
        identity_pk,
        signing_sk,
        signed_prekey_sk,
        signed_prekey_pk,
        signed_prekey_sig,
        one_time_prekey_sk,
        one_time_prekey_pk,
    }
}

fn bundle_of(b: &BobKeys, with_otpk: bool) -> PrekeyBundle {
    PrekeyBundle {
        identity_pk: b.identity_pk,
        signing_pk: b.signing_sk.verifying_key().to_bytes(),
        signed_prekey_pk: b.signed_prekey_pk,
        signed_prekey_signature: b.signed_prekey_sig,
        one_time_prekey_pk: if with_otpk { Some(b.one_time_prekey_pk) } else { None },
        one_time_prekey_id: if with_otpk { Some(1) } else { None },
    }
}

#[test]
fn basic_alice_to_bob() {
    let b = make_bob();
    let a_id_sk = secret();
    let a_id_pk = public_of(&a_id_sk);
    let bundle = bundle_of(&b, false);
    let alice = x3dh_initiate(&a_id_sk, a_id_pk, &bundle).expect("initiate");
    let bob = x3dh_respond(&b.identity_sk, b.identity_pk, &b.signed_prekey_sk, None, a_id_pk, alice.ephemeral_pk);
    assert_eq!(alice.root_key, bob.root_key, "root keys must match");
}

#[test]
fn bidirectional_no_otpk() {
    let b = make_bob();
    let a_id_sk = secret();
    let a_id_pk = public_of(&a_id_sk);
    let bundle = bundle_of(&b, false);
    let alice = x3dh_initiate(&a_id_sk, a_id_pk, &bundle).unwrap();
    let bob = x3dh_respond(&b.identity_sk, b.identity_pk, &b.signed_prekey_sk, None, a_id_pk, alice.ephemeral_pk);
    assert_eq!(alice.root_key, bob.root_key);
    assert_eq!(alice.ad, bob.ad);
}

#[test]
fn with_one_time_prekey() {
    let b = make_bob();
    let a_id_sk = secret();
    let a_id_pk = public_of(&a_id_sk);
    let bundle = bundle_of(&b, true);
    let alice = x3dh_initiate(&a_id_sk, a_id_pk, &bundle).unwrap();
    let bob = x3dh_respond(
        &b.identity_sk,
        b.identity_pk,
        &b.signed_prekey_sk,
        Some(&b.one_time_prekey_sk),
        a_id_pk,
        alice.ephemeral_pk,
    );
    assert_eq!(alice.root_key, bob.root_key);
}

#[test]
fn bad_signature_rejected() {
    let b = make_bob();
    let a_id_sk = secret();
    let a_id_pk = public_of(&a_id_sk);
    let bad_sig = b.signing_sk.sign(b"wrong data, not the prekey bytes").to_bytes();
    let mut bundle = bundle_of(&b, false);
    bundle.signed_prekey_signature = bad_sig;
    let result = x3dh_initiate(&a_id_sk, a_id_pk, &bundle);
    assert!(matches!(result, Err(X3dhError::BadSignature)), "expected BadSignature, got {:?}", result);
}

#[test]
fn two_sessions_produce_different_keys() {
    let b = make_bob();
    let bundle = bundle_of(&b, false);
    let a1_id_sk = secret();
    let a1_id_pk = public_of(&a1_id_sk);
    let s1 = x3dh_initiate(&a1_id_sk, a1_id_pk, &bundle).unwrap();
    let a2_id_sk = secret();
    let a2_id_pk = public_of(&a2_id_sk);
    let s2 = x3dh_initiate(&a2_id_sk, a2_id_pk, &bundle).unwrap();
    assert_ne!(s1.root_key, s2.root_key);
    let b1 = x3dh_respond(&b.identity_sk, b.identity_pk, &b.signed_prekey_sk, None, a1_id_pk, s1.ephemeral_pk);
    let b2 = x3dh_respond(&b.identity_sk, b.identity_pk, &b.signed_prekey_sk, None, a2_id_pk, s2.ephemeral_pk);
    assert_eq!(s1.root_key, b1.root_key);
    assert_eq!(s2.root_key, b2.root_key);
}

struct Material {
    identity_pk: [u8; 32],
    signing_sk: SigningKey,
    signed_prekey_pk: [u8; 32],
}

fn material() -> Material {
    Material {
        identity_pk: public_of(&secret()),
        signing_sk: signing_key(),
        signed_prekey_pk: public_of(&secret()),
    }
}

fn signed_bundle(m: &Material) -> PrekeyBundle {
    let signing_pk = m.signing_sk.verifying_key().to_bytes();
    let object = signed_prekey_object_v1(&m.identity_pk, &signing_pk, &m.signed_prekey_pk);
    PrekeyBundle {
        identity_pk: m.identity_pk,
        signing_pk,
        signed_prekey_pk: m.signed_prekey_pk,
        signed_prekey_signature: m.signing_sk.sign(&object).to_bytes(),
        one_time_prekey_pk: None,
        one_time_prekey_id: None,
    }
}

#[test]
fn object_layout_is_frozen() {
    let m = material();
    let signing_pk = m.signing_sk.verifying_key().to_bytes();
    let o = signed_prekey_object_v1(&m.identity_pk, &signing_pk, &m.signed_prekey_pk);
    assert_eq!(o.len(), 116);
    assert_eq!(&o[0..18], b"arcium/x3dh-spk/v1");
    assert_eq!(o[18], PROTOCOL_VERSION);
    assert_eq!(o[19], CIPHER_SUITE);
    assert_eq!(&o[20..52], &m.identity_pk);
    assert_eq!(&o[52..84], &signing_pk);
    assert_eq!(&o[84..116], &m.signed_prekey_pk);
}

#[test]
fn valid_signature_is_accepted() {
    let m = material();
    assert!(verify_signed_prekey_v1(&signed_bundle(&m)).is_ok());
    let a_sk = secret();
    assert!(x3dh_initiate(&a_sk, public_of(&a_sk), &signed_bundle(&m)).is_ok());
}

#[test]
fn substituted_identity_dh_key_is_rejected() {
    let m = material();
    let mut bundle = signed_bundle(&m);
    bundle.identity_pk = public_of(&secret());
    assert!(
        matches!(verify_signed_prekey_v1(&bundle), Err(X3dhError::BadSignature)),
        "swapping the DH identity under a signature made for another one must fail"
    );
}

#[test]
fn substituted_signing_key_is_rejected() {
    let m = material();
    let mut bundle = signed_bundle(&m);
    bundle.signing_pk = signing_key().verifying_key().to_bytes();
    assert!(matches!(verify_signed_prekey_v1(&bundle), Err(X3dhError::BadSignature)));
}

#[test]
fn substituted_signed_prekey_is_rejected() {
    let m = material();
    let mut bundle = signed_bundle(&m);
    bundle.signed_prekey_pk = public_of(&secret());
    assert!(matches!(verify_signed_prekey_v1(&bundle), Err(X3dhError::BadSignature)));
}

#[test]
fn signatures_from_other_contexts_are_rejected() {
    let m = material();
    let base = signed_bundle(&m);
    let signing_pk = m.signing_sk.verifying_key().to_bytes();

    let mut legacy = signed_bundle(&m);
    legacy.signed_prekey_signature = m.signing_sk.sign(&m.signed_prekey_pk).to_bytes();
    assert!(
        matches!(verify_signed_prekey_v1(&legacy), Err(X3dhError::BadSignature)),
        "a legacy raw-key signature must not verify as v1"
    );

    let mut foreign_object = signed_prekey_object_v1(&m.identity_pk, &signing_pk, &m.signed_prekey_pk);
    foreign_object[0..18].copy_from_slice(b"arcium/x3dh-spk/v2");
    let mut foreign = signed_bundle(&m);
    foreign.signed_prekey_signature = m.signing_sk.sign(&foreign_object).to_bytes();
    assert!(matches!(verify_signed_prekey_v1(&foreign), Err(X3dhError::BadSignature)));

    let mut other_suite = signed_prekey_object_v1(&m.identity_pk, &signing_pk, &m.signed_prekey_pk);
    other_suite[19] = 0x02;
    let mut suite_bundle = signed_bundle(&m);
    suite_bundle.signed_prekey_signature = m.signing_sk.sign(&other_suite).to_bytes();
    assert!(matches!(verify_signed_prekey_v1(&suite_bundle), Err(X3dhError::BadSignature)));

    assert!(verify_signed_prekey_v1(&base).is_ok());
}

#[test]
fn small_order_signing_key_is_rejected_by_strict_verification() {
    const SMALL_ORDER: [u8; 32] = [
        0xc7, 0x17, 0x6a, 0x70, 0x3d, 0x4d, 0xd8, 0x4f, 0xba, 0x3c, 0x0b, 0x76, 0x0d, 0x10, 0x67,
        0x0f, 0x2a, 0x20, 0x53, 0xfa, 0x2c, 0x39, 0xcc, 0xc6, 0x4e, 0xc7, 0xfd, 0x77, 0x92, 0xac,
        0x03, 0x7a,
    ];
    let Ok(weak) = VerifyingKey::from_bytes(&SMALL_ORDER) else {
        return;
    };
    let m = material();
    let mut bundle = signed_bundle(&m);
    bundle.signing_pk = weak.to_bytes();
    assert!(
        matches!(verify_signed_prekey_v1(&bundle), Err(X3dhError::BadSignature)),
        "a small-order verification key must never authenticate a bundle"
    );
    assert!(weak.is_weak(), "test vector must actually be a weak key, or it proves nothing");
}

// ── Double Ratchet over X3DH ────────────────────────────────────────────────

fn ratchet_pair() -> (DoubleRatchet, DoubleRatchet) {
    let b = make_bob();
    let a_id_sk = secret();
    let a_id_pk = public_of(&a_id_sk);
    let bundle = bundle_of(&b, false);
    let alice_x3dh = x3dh_initiate(&a_id_sk, a_id_pk, &bundle).unwrap();
    let bob_x3dh =
        x3dh_respond(&b.identity_sk, b.identity_pk, &b.signed_prekey_sk, None, a_id_pk, alice_x3dh.ephemeral_pk);
    let alice_r = DoubleRatchet::init_alice(alice_x3dh.root_key, b.signed_prekey_pk);
    let bob_r = DoubleRatchet::init_bob(bob_x3dh.root_key, b.signed_prekey_sk);
    (alice_r, bob_r)
}

#[test]
fn ratchet_alice_send_bob_receive() {
    let (mut alice, mut bob) = ratchet_pair();
    let msg = b"hello, Bob!";
    let ad = b"session-1";
    let (hdr, ct) = alice.encrypt(msg, ad).unwrap();
    let pt = bob.decrypt(&hdr, &ct, ad).unwrap();
    assert_eq!(pt, msg);
}

#[test]
fn ratchet_bob_responds() {
    let (mut alice, mut bob) = ratchet_pair();
    let ad = b"session-2";
    let (h1, c1) = alice.encrypt(b"ping", ad).unwrap();
    bob.decrypt(&h1, &c1, ad).unwrap();
    let (h2, c2) = bob.encrypt(b"pong", ad).unwrap();
    let pt = alice.decrypt(&h2, &c2, ad).unwrap();
    assert_eq!(pt, b"pong");
}

#[test]
fn ratchet_out_of_order_messages() {
    let (mut alice, mut bob) = ratchet_pair();
    let ad = b"session-3";
    let (h0, c0) = alice.encrypt(b"msg-0", ad).unwrap();
    let (h1, c1) = alice.encrypt(b"msg-1", ad).unwrap();
    let (h2, c2) = alice.encrypt(b"msg-2", ad).unwrap();
    assert_eq!(bob.decrypt(&h2, &c2, ad).unwrap(), b"msg-2");
    assert_eq!(bob.decrypt(&h1, &c1, ad).unwrap(), b"msg-1");
    assert_eq!(bob.decrypt(&h0, &c0, ad).unwrap(), b"msg-0");
}

#[test]
fn ratchet_many_messages() {
    let (mut alice, mut bob) = ratchet_pair();
    let ad = b"session-4";
    for i in 0u32..20 {
        let payload = format!("a→b {i}");
        let (h, c) = alice.encrypt(payload.as_bytes(), ad).unwrap();
        let pt = bob.decrypt(&h, &c, ad).unwrap();
        assert_eq!(pt, payload.as_bytes());
        let payload = format!("b→a {i}");
        let (h, c) = bob.encrypt(payload.as_bytes(), ad).unwrap();
        let pt = alice.decrypt(&h, &c, ad).unwrap();
        assert_eq!(pt, payload.as_bytes());
    }
}

#[test]
fn ratchet_dh_step_occurs() {
    let (mut alice, mut bob) = ratchet_pair();
    let ad = b"session-5";
    let (h, c) = alice.encrypt(b"r1-a", ad).unwrap();
    bob.decrypt(&h, &c, ad).unwrap();
    let (h, c) = bob.encrypt(b"r1-b", ad).unwrap();
    alice.decrypt(&h, &c, ad).unwrap();
    let (h, c) = alice.encrypt(b"r2-a", ad).unwrap();
    let pt = bob.decrypt(&h, &c, ad).unwrap();
    assert_eq!(pt, b"r2-a");
}

#[test]
fn ratchet_skip_limit_exceeded() {
    let (mut alice, mut bob) = ratchet_pair();
    let ad = b"session-6";
    let mut last = None;
    for _ in 0..MAX_SKIP + 2 {
        last = Some(alice.encrypt(b"skip-me", ad).unwrap());
    }
    let (h, c) = last.unwrap();
    let result = bob.decrypt(&h, &c, ad);
    assert!(matches!(result, Err(RatchetError::SkipLimit)), "expected SkipLimit error");
}

// ── ratchet internals ───────────────────────────────────────────────────────

#[test]
fn zeroize_key_material_clears_secret_fields() {
    let rk = [0xAB_u8; 32];
    let mut dr = DoubleRatchet::init_bob(rk, secret());
    assert_eq!(dr.rk(), rk, "precondition: rk matches seed");
    dr.zeroize_key_material();
    assert_eq!(dr.rk(), [0u8; 32], "rk must be zeroed");
    assert!(dr.cks().is_none(), "cks was None; must remain None after wipe");
    assert!(dr.ckr().is_none(), "ckr was None; must remain None after wipe");
    assert_eq!(dr.skipped_count(), 0, "skipped must be empty");
}

#[test]
fn trim_skipped_fifo_oldest_evicted_newest_retained() {
    let mut dr = DoubleRatchet::init_bob([0u8; 32], secret());
    dr.set_max_skipped(3);
    let dhr = [0u8; 32];
    for i in 0u32..5 {
        dr.insert_skipped(dhr, i, [i as u8; 32]);
    }
    dr.trim_skipped();
    assert_eq!(dr.skipped_count(), 3, "cap must be enforced");
    assert!(dr.skipped_key(&dhr, 0).is_none(), "oldest (0) must be evicted");
    assert!(dr.skipped_key(&dhr, 1).is_none(), "second-oldest (1) must be evicted");
    assert!(dr.skipped_key(&dhr, 2).is_some(), "entry 2 must survive");
    assert!(dr.skipped_key(&dhr, 3).is_some(), "entry 3 must survive");
    assert!(dr.skipped_key(&dhr, 4).is_some(), "newest (4) must survive");
}

#[test]
fn trim_skipped_evicted_value_is_zeroized() {
    let mut dr = DoubleRatchet::init_bob([0u8; 32], secret());
    dr.set_max_skipped(1);
    let dhr = [0u8; 32];
    dr.insert_skipped(dhr, 0, [0xAB_u8; 32]);
    dr.insert_skipped(dhr, 1, [0xCD_u8; 32]);
    dr.trim_skipped();
    assert!(dr.skipped_key(&dhr, 0).is_none(), "evicted entry removed");
    assert!(dr.skipped_key(&dhr, 1).is_some(), "retained entry present");
    assert_eq!(dr.skipped_key(&dhr, 1).unwrap(), [0xCD_u8; 32], "retained value must not be zeroized");
}

#[test]
fn trim_skipped_recently_skipped_key_survives_cap() {
    let mut dr = DoubleRatchet::init_bob([0u8; 32], secret());
    dr.set_max_skipped(3);
    let dhr = [0u8; 32];
    for i in 0u32..3 {
        dr.insert_skipped(dhr, i, [i as u8; 32]);
    }
    let recent_mk = [0xBB_u8; 32];
    dr.insert_skipped(dhr, 3, recent_mk);
    dr.trim_skipped();
    assert_eq!(dr.skipped_count(), 3, "cap enforced");
    assert!(dr.skipped_key(&dhr, 0).is_none(), "oldest evicted");
    assert!(dr.skipped_key(&dhr, 3).is_some(), "recently-skipped key survived");
    assert_eq!(dr.skipped_key(&dhr, 3).unwrap(), recent_mk, "recently-skipped key value intact");
}

fn established_pair() -> (DoubleRatchet, DoubleRatchet) {
    let root = [7u8; 32];
    let bob_spk = secret();
    let alice = DoubleRatchet::init_alice(root, public_of(&bob_spk));
    let bob = DoubleRatchet::init_bob(root, bob_spk);
    (alice, bob)
}

#[test]
fn forged_unknown_dh_message_does_not_mutate_state() {
    let (mut alice, mut bob) = established_pair();
    let ad = b"assoc";
    let (hdr1, ct1) = alice.encrypt(b"hello", ad).unwrap();
    let attacker_dh = public_of(&secret());
    let forged_hdr = Header { dh: attacker_dh, pn: 0, n: 0 };
    let forged_ct = vec![0u8; NONCE_SIZE + 16];

    let before_dhr = bob.dhr();
    let before_rk = bob.rk();
    let before_cks = bob.cks();
    let before_ckr = bob.ckr();
    let (before_ns, before_nr, before_pn) = bob.counters();
    let before_skipped = bob.skipped_count();
    let before_dhs = bob.our_dh_public();

    assert!(bob.decrypt(&forged_hdr, &forged_ct, ad).is_err());

    assert_eq!(bob.dhr(), before_dhr, "dhr must not change on failed decrypt");
    assert_eq!(bob.rk(), before_rk, "root key must not change");
    assert_eq!(bob.cks(), before_cks, "sending chain key must not change");
    assert_eq!(bob.ckr(), before_ckr, "receiving chain key must not change");
    let (ns, nr, pn) = bob.counters();
    assert_eq!(ns, before_ns, "send counter must not change");
    assert_eq!(nr, before_nr, "receive counter must not change");
    assert_eq!(pn, before_pn, "previous-chain counter must not change");
    assert_eq!(bob.skipped_count(), before_skipped, "skipped keys must not change");
    assert_eq!(bob.our_dh_public(), before_dhs, "dhs must not change");

    let pt = bob.decrypt(&hdr1, &ct1, ad).unwrap();
    assert_eq!(pt, b"hello");
    let (hdr2, ct2) = bob.encrypt(b"hi alice", ad).unwrap();
    let pt2 = alice.decrypt(&hdr2, &ct2, ad).unwrap();
    assert_eq!(pt2, b"hi alice");
}

#[test]
fn forged_ciphertext_reusing_skipped_key_header_does_not_consume_key() {
    let (mut alice, mut bob) = established_pair();
    let ad = b"assoc";
    let (hdr0, ct0) = alice.encrypt(b"zero", ad).unwrap();
    let (_hdr1, _ct1) = alice.encrypt(b"one", ad).unwrap();
    let (hdr2, ct2) = alice.encrypt(b"two", ad).unwrap();
    let pt2 = bob.decrypt(&hdr2, &ct2, ad).unwrap();
    assert_eq!(pt2, b"two");
    assert!(
        bob.skipped_key(&hdr0.dh, hdr0.n).is_some(),
        "message 0's key must have been stored as skipped"
    );
    let before_skipped_len = bob.skipped_count();
    let forged_ct = vec![0u8; ct0.len()];
    assert!(bob.decrypt(&hdr0, &forged_ct, ad).is_err());
    assert_eq!(bob.skipped_count(), before_skipped_len, "forged decrypt must not consume the stored skipped key");
    assert!(
        bob.skipped_key(&hdr0.dh, hdr0.n).is_some(),
        "skipped key for message 0 must still be present after the forged attempt"
    );
    let pt0 = bob.decrypt(&hdr0, &ct0, ad).unwrap();
    assert_eq!(pt0, b"zero");
}

#[test]
fn zeroize_key_material_clears_chain_keys() {
    let rk = [0x11_u8; 32];
    let their_pk = public_of(&secret());
    let mut dr = DoubleRatchet::init_alice(rk, their_pk);
    assert!(dr.cks().is_some(), "precondition: Alice has sending chain key");
    dr.zeroize_key_material();
    assert_eq!(dr.rk(), [0u8; 32], "rk must be zeroed");
    if let Some(k) = dr.cks() {
        assert_eq!(k, [0u8; 32], "cks key bytes must be zeroed");
    }
}

// ── ratchet checkpoints ─────────────────────────────────────────────────────

const AD: &[u8] = b"checkpoint-test-ad";
const FLAG_DHR: u8 = 0b001;
const FLAG_CKS: u8 = 0b010;
const FLAG_CKR: u8 = 0b100;

fn pair() -> (DoubleRatchet, DoubleRatchet) {
    let root = [9u8; 32];
    let bob_spk = secret();
    let alice = DoubleRatchet::init_alice(root, public_of(&bob_spk));
    let bob = DoubleRatchet::init_bob(root, bob_spk);
    (alice, bob)
}

fn decode_err(record: &[u8]) -> CheckpointError {
    match DoubleRatchet::from_checkpoint(record) {
        Ok(_) => panic!("record was accepted"),
        Err(e) => e,
    }
}

fn restore(r: &DoubleRatchet) -> DoubleRatchet {
    let rec = r.to_checkpoint().expect("encode");
    DoubleRatchet::from_checkpoint(&rec).expect("decode")
}

fn entries(r: &DoubleRatchet) -> Vec<([u8; 32], u32, [u8; 32])> {
    (0..r.skipped_count()).map(|i| r.skipped_entry(i)).collect()
}

fn assert_same_state(a: &DoubleRatchet, b: &DoubleRatchet) {
    assert_eq!(a.dhs(), b.dhs());
    assert_eq!(a.dhr(), b.dhr());
    assert_eq!(a.rk(), b.rk());
    assert_eq!(a.cks(), b.cks());
    assert_eq!(a.ckr(), b.ckr());
    assert_eq!(a.counters(), b.counters());
    assert_eq!(a.max_skipped(), b.max_skipped());
    assert_eq!(entries(a), entries(b), "skipped keys and their order must match");
}

fn with_skipped() -> (DoubleRatchet, DoubleRatchet, Vec<(Header, Vec<u8>)>) {
    let (mut alice, mut bob) = pair();
    let (h, c) = alice.encrypt(b"first", AD).unwrap();
    bob.decrypt(&h, &c, AD).unwrap();
    let (h, c) = bob.encrypt(b"reply", AD).unwrap();
    alice.decrypt(&h, &c, AD).unwrap();
    let held: Vec<_> = (0..4u8).map(|i| alice.encrypt(&[i], AD).unwrap()).collect();
    let (h, c) = alice.encrypt(b"latest", AD).unwrap();
    assert_eq!(bob.decrypt(&h, &c, AD).unwrap(), b"latest");
    assert_eq!(bob.skipped_count(), 4);
    (alice, bob, held)
}

#[test]
fn constructors_use_the_encoded_capacity() {
    let (alice, bob) = pair();
    assert_eq!(alice.max_skipped(), MAX_SKIPPED_KEYS);
    assert_eq!(bob.max_skipped(), MAX_SKIPPED_KEYS);
    assert_eq!(RATCHET_CHECKPOINT_MAX_LEN, 136_182);
}

#[test]
fn round_trip_is_byte_exact_in_every_reachable_shape() {
    let (alice, bob) = pair();
    let (a2, b2, _) = with_skipped();
    for r in [&alice, &bob, &a2, &b2] {
        let rec = r.to_checkpoint().unwrap();
        assert_eq!(rec.len(), FIXED_LEN + ENTRY_LEN * r.skipped_count());
        let back = DoubleRatchet::from_checkpoint(&rec).unwrap();
        assert_same_state(r, &back);
        assert_eq!(back.to_checkpoint().unwrap(), rec);
    }
}

#[test]
fn restored_sides_continue_the_conversation_in_both_directions() {
    let (alice, bob, held) = with_skipped();
    let (mut alice, mut bob) = (restore(&alice), restore(&bob));
    for (i, (h, c)) in held.iter().enumerate().rev() {
        assert_eq!(bob.decrypt(h, c, AD).unwrap(), [i as u8]);
    }
    assert_eq!(bob.skipped_count(), 0);
    for round in 0u8..3 {
        let (h, c) = bob.encrypt(&[round], AD).unwrap();
        assert_eq!(alice.decrypt(&h, &c, AD).unwrap(), [round]);
        alice = restore(&alice);
        let (h, c) = alice.encrypt(&[round, 1], AD).unwrap();
        assert_eq!(bob.decrypt(&h, &c, AD).unwrap(), [round, 1]);
        bob = restore(&bob);
    }
}

#[test]
fn responder_restored_before_first_message_still_receives_it() {
    let (mut alice, bob) = pair();
    let mut bob = restore(&bob);
    let (h, c) = alice.encrypt(b"hi", AD).unwrap();
    assert_eq!(bob.decrypt(&h, &c, AD).unwrap(), b"hi");
}

#[test]
fn restored_state_emits_the_unchanged_wire_format() {
    let (alice, mut bob) = pair();
    let mut alice = restore(&alice);
    let (h, c) = alice.encrypt(b"abc", AD).unwrap();
    assert_eq!(h.to_bytes().len(), HEADER_SIZE);
    assert_eq!(c.len(), NONCE_SIZE + 3 + 16);
    assert_eq!(h.n, 0);
    assert_eq!(h.dh, alice.our_dh_public());
    assert_eq!(bob.decrypt(&h, &c, AD).unwrap(), b"abc");
}

#[test]
fn restored_skipped_keys_evict_in_the_original_order() {
    let (_, mut original, _) = with_skipped();
    let dh = [0x55u8; 32];
    for n in 0..(MAX_SKIPPED_KEYS - original.skipped_count()) as u32 {
        original.insert_skipped(dh, n, [n as u8; 32]);
    }
    let mut restored = restore(&original);
    assert_same_state(&original, &restored);
    for r in [&mut original, &mut restored] {
        r.insert_skipped([0x66; 32], 0, [1; 32]);
        r.insert_skipped([0x66; 32], 1, [2; 32]);
        r.trim_skipped();
    }
    assert_same_state(&original, &restored);
}

#[test]
fn capacity_is_the_limit_for_encoding_and_decoding() {
    let (_, mut bob, _) = with_skipped();
    let dh = [0x77u8; 32];
    let mut n = 0u32;
    while bob.skipped_count() < MAX_SKIPPED_KEYS {
        bob.insert_skipped(dh, n, [1; 32]);
        n += 1;
    }
    let rec = bob.to_checkpoint().unwrap();
    assert_eq!(rec.len(), RATCHET_CHECKPOINT_MAX_LEN);
    assert_same_state(&bob, &DoubleRatchet::from_checkpoint(&rec).unwrap());

    bob.insert_skipped(dh, n, [1; 32]);
    assert_eq!(
        bob.to_checkpoint().unwrap_err(),
        CheckpointError::TooManySkippedKeys(MAX_SKIPPED_KEYS as u32 + 1)
    );
    let mut forged = rec.to_vec();
    forged[178..182].copy_from_slice(&(MAX_SKIPPED_KEYS as u32 + 1).to_be_bytes());
    assert_eq!(decode_err(&forged), CheckpointError::TooManySkippedKeys(MAX_SKIPPED_KEYS as u32 + 1));
    forged.extend_from_slice(&[2u8; ENTRY_LEN]);
    assert_eq!(
        decode_err(&forged),
        CheckpointError::Oversized { actual: RATCHET_CHECKPOINT_MAX_LEN + ENTRY_LEN }
    );
}

#[test]
fn every_truncation_and_any_extension_is_rejected() {
    let (_, bob, _) = with_skipped();
    let rec = bob.to_checkpoint().unwrap();
    for len in 0..rec.len() {
        assert!(DoubleRatchet::from_checkpoint(&rec[..len]).is_err(), "prefix {len}");
    }
    let mut longer = rec.to_vec();
    longer.push(0);
    assert!(matches!(
        DoubleRatchet::from_checkpoint(&longer),
        Err(CheckpointError::LengthMismatch { .. })
    ));
}

#[test]
fn unsupported_version_and_flags_are_rejected() {
    let (alice, _) = pair();
    let rec = alice.to_checkpoint().unwrap();
    for v in [0u8, 2, 0xff] {
        let mut r = rec.to_vec();
        r[0] = v;
        assert_eq!(decode_err(&r), CheckpointError::UnsupportedVersion(v));
    }
    let mut r = rec.to_vec();
    r[1] |= 0b1000;
    assert!(matches!(DoubleRatchet::from_checkpoint(&r), Err(CheckpointError::UnknownFlags(_))));
    let mut r = rec.to_vec();
    r[174..178].copy_from_slice(&1000u32.to_be_bytes());
    assert_eq!(decode_err(&r), CheckpointError::UnexpectedCapacity(1000));
}

#[test]
fn unreachable_presence_combinations_are_rejected() {
    let (_, bob, _) = with_skipped();
    let rec = bob.to_checkpoint().unwrap();
    let empty = {
        let mut r = rec[..FIXED_LEN].to_vec();
        r[178..182].copy_from_slice(&0u32.to_be_bytes());
        r
    };
    for flags in 0u8..8 {
        if matches!(flags, 0b000 | 0b011 | 0b111) {
            continue;
        }
        let mut r = empty.clone();
        r[1] = flags;
        for (bit, off) in [(FLAG_DHR, 34usize), (FLAG_CKS, 98), (FLAG_CKR, 130)] {
            if flags & bit == 0 {
                r[off..off + 32].fill(0);
            }
        }
        r[166..174].fill(0);
        assert!(
            matches!(DoubleRatchet::from_checkpoint(&r), Err(CheckpointError::InconsistentState(_))),
            "flags {flags:#05b}"
        );
    }
}

#[test]
fn counters_and_skipped_keys_without_a_receiving_chain_are_rejected() {
    let (alice, bob) = pair();
    let a = alice.to_checkpoint().unwrap();
    let b = bob.to_checkpoint().unwrap();
    for (base, off) in [(&a, 166usize), (&a, 170), (&b, 162), (&b, 166), (&b, 170)] {
        let mut r = base.to_vec();
        r[off..off + 4].copy_from_slice(&1u32.to_be_bytes());
        assert!(
            matches!(DoubleRatchet::from_checkpoint(&r), Err(CheckpointError::InconsistentState(_))),
            "offset {off}"
        );
    }
    let mut r = a.to_vec();
    r[178..182].copy_from_slice(&1u32.to_be_bytes());
    r.extend_from_slice(&[1u8; ENTRY_LEN]);
    assert!(matches!(DoubleRatchet::from_checkpoint(&r), Err(CheckpointError::InconsistentState(_))));
}

#[test]
fn absent_fields_must_be_zero() {
    let (alice, bob) = pair();
    for (rec, off, name) in [
        (alice.to_checkpoint().unwrap(), 130usize, "ckr"),
        (bob.to_checkpoint().unwrap(), 34, "dhr"),
        (bob.to_checkpoint().unwrap(), 98, "cks"),
    ] {
        let mut r = rec.to_vec();
        r[off + 31] = 1;
        assert_eq!(decode_err(&r), CheckpointError::AbsentFieldNotZero(name));
    }
}

#[test]
fn duplicate_skipped_entries_are_rejected() {
    let (_, bob, _) = with_skipped();
    let mut r = bob.to_checkpoint().unwrap().to_vec();
    let (first, second) = (FIXED_LEN, FIXED_LEN + ENTRY_LEN);
    let key: Vec<u8> = r[first..first + 36].to_vec();
    r[second..second + 36].copy_from_slice(&key);
    assert_eq!(decode_err(&r), CheckpointError::DuplicateSkippedKey);
}

#[test]
fn staged_copy_is_independent_of_the_original() {
    let (mut alice, mut bob) = pair();
    let before = alice.to_checkpoint().unwrap();
    let mut staged = alice.staged_copy();
    let (h_staged, _) = staged.encrypt(b"staged", AD).unwrap();
    assert_eq!(alice.to_checkpoint().unwrap(), before, "original untouched");
    drop(staged);
    let (h, c) = alice.encrypt(b"real", AD).unwrap();
    assert_eq!(h.n, h_staged.n);
    assert_eq!(bob.decrypt(&h, &c, AD).unwrap(), b"real");
}
