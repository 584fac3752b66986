use arcium_core::ratchet::checkpoint::CheckpointError;
use arcium_core::ratchet::DoubleRatchet;
use arcium_core::session::{Session, SessionError, SessionManager};
use arcium_core::session_checkpoint::{
    decode_session_checkpoint, encode_session_checkpoint, SessionBinding, SessionCheckpointError,
    SessionRole, HEADER_LEN, SESSION_CHECKPOINT_MAX_LEN,
};
use rand_core::{OsRng, RngCore};
use x25519_dalek::{PublicKey, StaticSecret};

fn secret() -> [u8; 32] {
    let mut k = [0u8; 32];
    OsRng.fill_bytes(&mut k);
    k
}

fn identity() -> [u8; 32] {
    PublicKey::from(&StaticSecret::from(secret())).to_bytes()
}

// ── the session table ───────────────────────────────────────────────────────

fn session_with_peer(peer: u8) -> Session {
    let root_key = [0u8; 32];
    Session {
        ratchet: DoubleRatchet::init_alice(root_key, identity()),
        ad: b"test-ad".to_vec(),
        peer_identity_pk: [peer; 32],
    }
}

fn make_session() -> Session {
    session_with_peer(1)
}

#[test]
fn new_session_is_retrievable() {
    let mut mgr = SessionManager::new();
    mgr.try_new_session(1, make_session()).unwrap();
    assert!(mgr.get_session(1).is_some());
}

#[test]
fn missing_session_returns_none() {
    let mut mgr = SessionManager::new();
    assert!(mgr.get_session(99).is_none());
}

#[test]
fn remove_session_deletes_entry() {
    let mut mgr = SessionManager::new();
    mgr.try_new_session(2, make_session()).unwrap();
    mgr.remove_session(2);
    assert!(mgr.get_session(2).is_none());
}

#[test]
fn multiple_sessions_are_independent() {
    let mut mgr = SessionManager::new();
    mgr.try_new_session(10, make_session()).unwrap();
    mgr.try_new_session(20, make_session()).unwrap();
    assert!(mgr.get_session(10).is_some());
    assert!(mgr.get_session(20).is_some());
    assert!(mgr.get_session(30).is_none());
}

#[test]
fn re_establishing_the_same_peer_is_refused_and_keeps_the_original_session() {
    let mut mgr = SessionManager::new();
    mgr.try_new_session(3, session_with_peer(7)).unwrap();
    let original_dh = mgr.get_session(3).unwrap().ratchet.our_dh_public();
    let err = mgr.try_new_session(3, session_with_peer(7)).unwrap_err();
    assert_eq!(err, SessionError::AlreadyEstablished { contact_id: 3 });
    let kept = mgr.get_session(3).unwrap();
    assert_eq!(
        kept.ratchet.our_dh_public(),
        original_dh,
        "the rejected attempt must not have swapped in a different ratchet"
    );
    assert_eq!(kept.peer_identity_pk, [7u8; 32]);
}

#[test]
fn a_different_peer_on_an_occupied_id_is_refused_as_a_collision() {
    let mut mgr = SessionManager::new();
    mgr.try_new_session(5, session_with_peer(7)).unwrap();
    let original_dh = mgr.get_session(5).unwrap().ratchet.our_dh_public();
    let err = mgr.try_new_session(5, session_with_peer(8)).unwrap_err();
    assert_eq!(err, SessionError::HandleCollision { contact_id: 5 });
    let kept = mgr.get_session(5).unwrap();
    assert_eq!(kept.peer_identity_pk, [7u8; 32], "the first peer must keep the id");
    assert_eq!(kept.ratchet.our_dh_public(), original_dh);
}

#[test]
fn duplicate_and_collision_are_distinct_errors() {
    let mut mgr = SessionManager::new();
    mgr.try_new_session(6, session_with_peer(1)).unwrap();
    assert_ne!(
        mgr.try_new_session(6, session_with_peer(1)).unwrap_err(),
        mgr.try_new_session(6, session_with_peer(2)).unwrap_err(),
    );
}

#[test]
fn a_refused_insertion_does_not_poison_the_id() {
    let mut mgr = SessionManager::new();
    mgr.try_new_session(9, session_with_peer(1)).unwrap();
    assert!(mgr.try_new_session(9, session_with_peer(2)).is_err());
    mgr.remove_session(9);
    mgr.try_new_session(9, session_with_peer(2)).expect("id must be reusable once vacated");
    assert_eq!(mgr.get_session(9).unwrap().peer_identity_pk, [2u8; 32]);
}

#[test]
fn session_ad_is_retained() {
    let mut mgr = SessionManager::new();
    mgr.try_new_session(4, make_session()).unwrap();
    let session = mgr.get_session(4).unwrap();
    assert_eq!(session.ad, b"test-ad");
}

// ── session checkpoints ─────────────────────────────────────────────────────

fn initiator_session(our: &[u8; 32], peer: &[u8; 32]) -> Session {
    Session {
        ratchet: DoubleRatchet::init_alice([3u8; 32], identity()),
        ad: SessionRole::Initiator.expected_ad(our, peer).to_vec(),
        peer_identity_pk: *peer,
    }
}

fn decode_err(record: &[u8], expected: &SessionBinding) -> SessionCheckpointError {
    match decode_session_checkpoint(record, expected) {
        Ok(_) => panic!("record was accepted"),
        Err(e) => e,
    }
}

#[test]
fn round_trip_keeps_binding_role_generation_and_ratchet() {
    let (our, peer) = (identity(), identity());
    let s = initiator_session(&our, &peer);
    let rec = encode_session_checkpoint(&s, SessionRole::Initiator, &our, 42).unwrap();
    let binding = SessionBinding { our_identity_pk: our, peer_identity_pk: peer };
    let r = decode_session_checkpoint(&rec, &binding).unwrap_or_else(|_| panic!("decode"));
    assert_eq!(r.role, SessionRole::Initiator);
    assert_eq!(r.generation, 42);
    assert_eq!(r.session.ad, s.ad);
    assert_eq!(r.session.peer_identity_pk, peer);
    assert_eq!(r.session.ratchet.to_checkpoint().unwrap(), s.ratchet.to_checkpoint().unwrap());
    let again = encode_session_checkpoint(&r.session, r.role, &our, 42).unwrap();
    assert_eq!(again, rec);
}

#[test]
fn responder_ad_order_is_accepted_and_initiator_order_is_not() {
    let (our, peer) = (identity(), identity());
    let s = Session {
        ratchet: DoubleRatchet::init_bob([4u8; 32], secret()),
        ad: SessionRole::Responder.expected_ad(&our, &peer).to_vec(),
        peer_identity_pk: peer,
    };
    assert!(encode_session_checkpoint(&s, SessionRole::Responder, &our, 0).is_ok());
    assert_eq!(
        encode_session_checkpoint(&s, SessionRole::Initiator, &our, 0).unwrap_err(),
        SessionCheckpointError::AdMismatch
    );
}

#[test]
fn encoding_refuses_an_ad_that_is_not_the_x3dh_ad() {
    let (our, peer) = (identity(), identity());
    let mut s = initiator_session(&our, &peer);
    s.ad = b"test-ad".to_vec();
    assert_eq!(
        encode_session_checkpoint(&s, SessionRole::Initiator, &our, 0).unwrap_err(),
        SessionCheckpointError::AdMismatch
    );
    let s = initiator_session(&our, &peer);
    assert_eq!(
        encode_session_checkpoint(&s, SessionRole::Initiator, &identity(), 0).unwrap_err(),
        SessionCheckpointError::AdMismatch,
        "AD built for another local identity"
    );
}

#[test]
fn wrong_identities_and_tampered_binding_are_rejected() {
    let (our, peer) = (identity(), identity());
    let s = initiator_session(&our, &peer);
    let rec = encode_session_checkpoint(&s, SessionRole::Initiator, &our, 1).unwrap();
    let good = SessionBinding { our_identity_pk: our, peer_identity_pk: peer };
    let other_us = SessionBinding { our_identity_pk: identity(), ..good };
    assert_eq!(decode_err(&rec, &other_us), SessionCheckpointError::OurIdentityMismatch);
    let other_peer = SessionBinding { peer_identity_pk: identity(), ..good };
    assert_eq!(decode_err(&rec, &other_peer), SessionCheckpointError::PeerIdentityMismatch);
    let mut flipped_role = rec.to_vec();
    flipped_role[8] = 1;
    assert_eq!(decode_err(&flipped_role, &good), SessionCheckpointError::AdMismatch);
    let mut bad_ad = rec.to_vec();
    bad_ad[81] ^= 1;
    assert_eq!(decode_err(&bad_ad, &good), SessionCheckpointError::AdMismatch);
}

#[test]
fn malformed_envelopes_are_rejected() {
    let (our, peer) = (identity(), identity());
    let s = initiator_session(&our, &peer);
    let rec = encode_session_checkpoint(&s, SessionRole::Initiator, &our, 1).unwrap();
    let good = SessionBinding { our_identity_pk: our, peer_identity_pk: peer };
    for len in 0..rec.len() {
        assert!(decode_session_checkpoint(&rec[..len], &good).is_err(), "prefix {len}");
    }
    let mut longer = rec.to_vec();
    longer.push(0);
    assert!(matches!(decode_err(&longer, &good), SessionCheckpointError::LengthMismatch { .. }));
    assert!(matches!(
        decode_err(&vec![0u8; SESSION_CHECKPOINT_MAX_LEN + 1], &good),
        SessionCheckpointError::Oversized { .. }
    ));
    let mut r = rec.to_vec();
    r[0] = b'X';
    assert_eq!(decode_err(&r, &good), SessionCheckpointError::BadMagic);
    let mut r = rec.to_vec();
    r[7] = 2;
    assert_eq!(decode_err(&r, &good), SessionCheckpointError::UnsupportedVersion(2));
    let mut r = rec.to_vec();
    r[8] = 2;
    assert_eq!(decode_err(&r, &good), SessionCheckpointError::UnknownRole(2));
    let mut r = rec.to_vec();
    r[HEADER_LEN] = 9;
    assert_eq!(
        decode_err(&r, &good),
        SessionCheckpointError::Ratchet(CheckpointError::UnsupportedVersion(9))
    );
}
