use arcium_core::messaging::{
    message_id, IncomingMessage, MessagingError, Messenger, NewSession, Received, SendOutcome,
};
use arcium_core::ratchet::DoubleRatchet;
use arcium_core::session::Session;
use arcium_core::session_checkpoint::SessionRole;
use arcium_core::storage::EncryptedStore;
use rand_core::{OsRng, RngCore};
use x25519_dalek::{PublicKey, StaticSecret};

const KEY: [u8; 32] = [0x24; 32];
const ALICE_HANDLE: u64 = 0xA11CE;
const BOB_HANDLE: u64 = 0xB0B;

fn secret() -> [u8; 32] {
    let mut k = [0u8; 32];
    OsRng.fill_bytes(&mut k);
    k
}

fn public_of(sk: &[u8; 32]) -> [u8; 32] {
    PublicKey::from(&StaticSecret::from(*sk)).to_bytes()
}

struct Peers {
    a: EncryptedStore,
    b: EncryptedStore,
    am: Messenger,
    bm: Messenger,
    alice_pk: [u8; 32],
    bob_pk: [u8; 32],
}

fn peers() -> Peers {
    let alice_pk = public_of(&secret());
    let bob_pk = public_of(&secret());
    let mut ad = alice_pk.to_vec();
    ad.extend_from_slice(&bob_pk);
    let spk = secret();
    let root = [9u8; 32];
    let alice = Session {
        ratchet: DoubleRatchet::init_alice(root, public_of(&spk)),
        ad: ad.clone(),
        peer_identity_pk: bob_pk,
    };
    let bob = Session { ratchet: DoubleRatchet::init_bob(root, spk), ad, peer_identity_pk: alice_pk };
    let mut p = Peers {
        a: EncryptedStore::open_in_memory(KEY).unwrap(),
        b: EncryptedStore::open_in_memory(KEY).unwrap(),
        am: Messenger::new(),
        bm: Messenger::new(),
        alice_pk,
        bob_pk,
    };
    p.am.create_session(
        &mut p.a,
        alice_pk,
        NewSession {
            handle: ALICE_HANDLE,
            session: alice,
            role: SessionRole::Initiator,
            initial_outbound: Some(b"handshake".to_vec()),
            extra: Vec::new(),
        },
    )
    .unwrap();
    p.bm.create_session(
        &mut p.b,
        bob_pk,
        NewSession { handle: BOB_HANDLE, session: bob, role: SessionRole::Responder, initial_outbound: None, extra: Vec::new() },
    )
    .unwrap();
    p
}

fn sent(o: SendOutcome) -> arcium_core::messaging::OutgoingMessage {
    match o {
        SendOutcome::Sent(m) => m,
        other => panic!("expected a new message, got {other:?}"),
    }
}

#[test]
fn a_sent_message_is_received_once_and_then_is_a_duplicate() {
    let mut p = peers();
    assert_eq!(p.am.peer_of(&mut p.a, ALICE_HANDLE).unwrap(), Some(p.bob_pk));
    assert_eq!(p.am.initial_outbound(&mut p.a, ALICE_HANDLE).unwrap(), Some(b"handshake".to_vec()));
    let m = sent(p.am.send(&mut p.a, p.alice_pk, ALICE_HANDLE, b"c1", b"hello").unwrap());
    assert_eq!(m.message_id, message_id(&m.wire));
    assert_eq!(m.generation, 1);
    assert_eq!(m.wire.len(), 5 + 80);
    let got = match p.bm.receive(&mut p.b, p.bob_pk, BOB_HANDLE, &m.wire).unwrap() {
        Received::Accepted(got) => got,
        other => panic!("expected acceptance, got {other:?}"),
    };
    assert_eq!(got.plaintext, b"hello");
    assert_eq!(got.message_id, m.message_id);
    assert_eq!(
        p.bm.receive(&mut p.b, p.bob_pk, BOB_HANDLE, &m.wire).unwrap(),
        Received::Duplicate {
            message_id: m.message_id,
            undelivered: Some(IncomingMessage { message_id: m.message_id, generation: 1, plaintext: b"hello".to_vec() }),
        }
    );
    assert_eq!(p.bm.pending_incoming(&mut p.b, BOB_HANDLE).unwrap().len(), 1);
    assert!(p.bm.acknowledge_incoming(&mut p.b, BOB_HANDLE, &m.message_id).unwrap());
    assert!(!p.bm.acknowledge_incoming(&mut p.b, BOB_HANDLE, &m.message_id).unwrap());
    assert!(p.bm.pending_incoming(&mut p.b, BOB_HANDLE).unwrap().is_empty());
    assert_eq!(
        p.bm.receive(&mut p.b, p.bob_pk, BOB_HANDLE, &m.wire).unwrap(),
        Received::Duplicate { message_id: m.message_id, undelivered: None }
    );
    assert!(matches!(
        p.bm.acknowledge_incoming(&mut p.b, BOB_HANDLE, &[7; 32]),
        Err(MessagingError::UnknownMessage)
    ));
}

#[test]
fn a_logical_message_is_sent_once() {
    let mut p = peers();
    let first = sent(p.am.send(&mut p.a, p.alice_pk, ALICE_HANDLE, b"same", b"once").unwrap());
    assert_eq!(
        p.am.send(&mut p.a, p.alice_pk, ALICE_HANDLE, b"same", b"once").unwrap(),
        SendOutcome::AlreadyPending(first.clone())
    );
    assert_eq!(p.am.pending_outgoing(&mut p.a, ALICE_HANDLE).unwrap(), vec![first.clone()]);
    assert!(p.am.acknowledge_outgoing(&mut p.a, ALICE_HANDLE, &first.message_id).unwrap());
    assert!(!p.am.acknowledge_outgoing(&mut p.a, ALICE_HANDLE, &first.message_id).unwrap());
    assert_eq!(
        p.am.send(&mut p.a, p.alice_pk, ALICE_HANDLE, b"same", b"once").unwrap(),
        SendOutcome::AlreadyAcknowledged { message_id: first.message_id }
    );
}

#[test]
fn pending_outgoing_is_in_send_order_and_abandoning_ends_it() {
    let mut p = peers();
    let mut all = Vec::new();
    for i in 0..4u8 {
        all.push(sent(p.am.send(&mut p.a, p.alice_pk, ALICE_HANDLE, &[b'k', i], &[i]).unwrap()));
    }
    assert_eq!(p.am.pending_outgoing(&mut p.a, ALICE_HANDLE).unwrap(), all);
    assert!(p.am.abandon_outgoing(&mut p.a, ALICE_HANDLE, &all[1].message_id).unwrap());
    assert!(!p.am.abandon_outgoing(&mut p.a, ALICE_HANDLE, &all[1].message_id).unwrap());
    assert_eq!(
        p.am.send(&mut p.a, p.alice_pk, ALICE_HANDLE, &[b'k', 1], &[1]).unwrap(),
        SendOutcome::Abandoned { message_id: all[1].message_id }
    );
    assert_eq!(p.am.pending_outgoing(&mut p.a, ALICE_HANDLE).unwrap().len(), 3);
}

#[test]
fn invalid_inputs_are_refused() {
    let mut p = peers();
    assert!(matches!(
        p.am.send(&mut p.a, p.alice_pk, ALICE_HANDLE, b"", b"x"),
        Err(MessagingError::InvalidClientMessageId)
    ));
    assert!(matches!(
        p.am.send(&mut p.a, p.alice_pk, ALICE_HANDLE, &[1u8; 65], b"x"),
        Err(MessagingError::InvalidClientMessageId)
    ));
    assert!(matches!(
        p.am.send(&mut p.a, p.alice_pk, 77, b"c", b"x"),
        Err(MessagingError::NoSession { handle: 77 })
    ));
    assert!(matches!(
        p.bm.receive(&mut p.b, p.bob_pk, BOB_HANDLE, &[0u8; 39]),
        Err(MessagingError::MalformedMessage)
    ));
    assert_eq!(p.am.unresolved_generation(ALICE_HANDLE), None);
    assert_eq!(p.am.recover(&mut p.a, p.alice_pk, ALICE_HANDLE).unwrap(), None);
}

#[test]
fn a_taken_handle_or_peer_is_refused_without_writing() {
    let mut p = peers();
    let other = Session { ratchet: DoubleRatchet::init_bob([1; 32], secret()), ad: Vec::new(), peer_identity_pk: [3; 32] };
    let r = p.am.create_session(
        &mut p.a,
        p.alice_pk,
        NewSession { handle: ALICE_HANDLE, session: other, role: SessionRole::Responder, initial_outbound: None, extra: Vec::new() },
    );
    assert!(matches!(r, Err(MessagingError::InvalidSession(_))));
    let mut ad = [3u8; 32].to_vec();
    ad.extend_from_slice(&p.alice_pk);
    let other = Session { ratchet: DoubleRatchet::init_bob([1; 32], secret()), ad, peer_identity_pk: [3; 32] };
    let r = p.am.create_session(
        &mut p.a,
        p.alice_pk,
        NewSession { handle: ALICE_HANDLE, session: other, role: SessionRole::Responder, initial_outbound: None, extra: Vec::new() },
    );
    assert!(matches!(r, Err(MessagingError::HandleCollision { handle: ALICE_HANDLE })));
    assert_eq!(p.am.peer_of(&mut p.a, ALICE_HANDLE).unwrap(), Some(p.bob_pk));
}

#[test]
fn only_a_session_without_obligations_is_removed() {
    let mut p = peers();
    let m = sent(p.am.send(&mut p.a, p.alice_pk, ALICE_HANDLE, b"c", b"hi").unwrap());
    assert!(matches!(
        p.am.remove_session(&mut p.a, p.alice_pk, ALICE_HANDLE),
        Err(MessagingError::PendingOutgoing { count: 1 })
    ));
    p.bm.receive(&mut p.b, p.bob_pk, BOB_HANDLE, &m.wire).unwrap();
    assert!(matches!(
        p.bm.remove_session(&mut p.b, p.bob_pk, BOB_HANDLE),
        Err(MessagingError::SessionEstablished)
    ));
    p.am.acknowledge_outgoing(&mut p.a, ALICE_HANDLE, &m.message_id).unwrap();
    p.am.remove_session(&mut p.a, p.alice_pk, ALICE_HANDLE).unwrap();
    assert_eq!(p.am.peer_of(&mut p.a, ALICE_HANDLE).unwrap(), None);
    assert!(matches!(
        p.am.remove_session(&mut p.a, p.alice_pk, ALICE_HANDLE),
        Err(MessagingError::NoSession { handle: ALICE_HANDLE })
    ));
}
