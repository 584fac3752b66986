use arcium_core::durable::{Conflict, DurableSession, S1CheckpointStore, SideWrite, SideWriteError};
use arcium_core::messaging::records::MAX_CLIENT_MESSAGE_ID_LEN;
use arcium_core::messaging::{
    message_id, IncomingMessage, MessagingError, Messenger, NewSession, OutgoingMessage, Received,
    SendOutcome,
};
use arcium_core::ratchet::{DoubleRatchet, Header, RatchetError, HEADER_SIZE};
use arcium_core::session::Session;
use arcium_core::session_checkpoint::{
    session_storage_key, SessionBinding, SessionCheckpointError, SessionRole,
};
use arcium_core::storage::EncryptedStore;
use rand_core::{OsRng, RngCore};
use x25519_dalek::{PublicKey, StaticSecret};

fn secret() -> [u8; 32] {
    let mut k = [0u8; 32];
    OsRng.fill_bytes(&mut k);
    k
}

fn public_of(sk: &[u8; 32]) -> [u8; 32] {
    PublicKey::from(&StaticSecret::from(*sk)).to_bytes()
}

/// A fresh logical message id for each call.
fn cid() -> Vec<u8> {
    let mut b = [0u8; 8];
    OsRng.fill_bytes(&mut b);
    b.to_vec()
}

fn temp_db() -> String {
    let mut b = [0u8; 8];
    OsRng.fill_bytes(&mut b);
    format!("/tmp/arcium-core-messaging-{:016x}.db", u64::from_le_bytes(b))
}

fn new_message(o: SendOutcome) -> OutgoingMessage {
    match o {
        SendOutcome::Sent(m) => m,
        other => panic!("expected a new message, got {other:?}"),
    }
}

const KEY: [u8; 32] = [0x24; 32];
const ALICE_HANDLE: u64 = 0xA11CE;
const BOB_HANDLE: u64 = 0xB0B;

struct Pair {
    alice: Session,
    bob: Session,
    alice_pk: [u8; 32],
    bob_pk: [u8; 32],
}

fn pair() -> Pair {
    let alice_pk = public_of(&secret());
    let bob_pk = public_of(&secret());
    let mut ad = alice_pk.to_vec();
    ad.extend_from_slice(&bob_pk);
    let spk = secret();
    let root = [9u8; 32];
    Pair {
        alice: Session {
            ratchet: DoubleRatchet::init_alice(root, public_of(&spk)),
            ad: ad.clone(),
            peer_identity_pk: bob_pk,
        },
        bob: Session { ratchet: DoubleRatchet::init_bob(root, spk), ad, peer_identity_pk: alice_pk },
        alice_pk,
        bob_pk,
    }
}

fn new_session(handle: u64, session: Session, role: SessionRole) -> NewSession {
    NewSession { handle, session, role, initial_outbound: None, extra: Vec::new() }
}

struct Peers {
    a: EncryptedStore,
    b: EncryptedStore,
    am: Messenger,
    bm: Messenger,
    alice_pk: [u8; 32],
    bob_pk: [u8; 32],
}

fn setup(a: EncryptedStore, b: EncryptedStore) -> Peers {
    let p = pair();
    let mut peers = Peers { a, b, am: Messenger::new(), bm: Messenger::new(), alice_pk: p.alice_pk, bob_pk: p.bob_pk };
    peers
        .am
        .create_session(&mut peers.a, p.alice_pk, new_session(ALICE_HANDLE, p.alice, SessionRole::Initiator))
        .unwrap();
    peers
        .bm
        .create_session(&mut peers.b, p.bob_pk, new_session(BOB_HANDLE, p.bob, SessionRole::Responder))
        .unwrap();
    peers
}

fn memory_peers() -> Peers {
    setup(EncryptedStore::open_in_memory(KEY).unwrap(), EncryptedStore::open_in_memory(KEY).unwrap())
}

impl Peers {
    fn alice_sends(&mut self, m: &[u8]) -> OutgoingMessage {
        self.am.send(&mut self.a, self.alice_pk, ALICE_HANDLE, &cid(), m).map(new_message).unwrap()
    }
    fn bob_sends(&mut self, m: &[u8]) -> OutgoingMessage {
        self.bm.send(&mut self.b, self.bob_pk, BOB_HANDLE, &cid(), m).map(new_message).unwrap()
    }
    fn bob_receives(&mut self, wire: &[u8]) -> Result<Received, MessagingError> {
        self.bm.receive(&mut self.b, self.bob_pk, BOB_HANDLE, wire)
    }
    fn alice_receives(&mut self, wire: &[u8]) -> Result<Received, MessagingError> {
        self.am.receive(&mut self.a, self.alice_pk, ALICE_HANDLE, wire)
    }
}

/// The generation of the session stored under `handle`.
fn generation(store: &mut EncryptedStore, our: [u8; 32], handle: u64) -> u64 {
    let peer = Messenger::new().peer_of(store, handle).unwrap().expect("handle registered");
    let binding = SessionBinding { our_identity_pk: our, peer_identity_pk: peer };
    match DurableSession::load(&mut S1CheckpointStore::new(store), &binding) {
        Ok(Some(s)) => s.generation(),
        _ => panic!("session present and valid"),
    }
}

fn accepted(r: Received) -> IncomingMessage {
    match r {
        Received::Accepted(m) => m,
        other => panic!("expected Accepted, got {other:?}"),
    }
}

fn keys(store: &mut EncryptedStore, prefix: &str) -> usize {
    store.list_keys_with_prefix(prefix).unwrap().len()
}

// ── outbox and inbox ────────────────────────────────────────────────────────

#[test]
fn a_send_is_committed_with_its_outbox_record_and_returned_unchanged() {
    let mut p = memory_peers();
    let sent = p.alice_sends(b"hello");
    assert_eq!(sent.message_id, message_id(&sent.wire));
    assert_eq!(sent.generation, 1);
    assert_eq!(generation(&mut p.a, p.alice_pk, ALICE_HANDLE), 1);

    let pending = p.am.pending_outgoing(&mut p.a, ALICE_HANDLE).unwrap();
    assert_eq!(pending, vec![sent.clone()]);
    assert_eq!(p.am.pending_outgoing(&mut p.a, ALICE_HANDLE).unwrap(), pending);
    assert_eq!(generation(&mut p.a, p.alice_pk, ALICE_HANDLE), 1);

    let got = accepted(p.bob_receives(&sent.wire).unwrap());
    assert_eq!(got.plaintext, b"hello");
    assert_eq!(got.message_id, sent.message_id, "both sides derive one id");

    assert!(p.am.acknowledge_outgoing(&mut p.a, ALICE_HANDLE, &sent.message_id).unwrap());
    assert!(!p.am.acknowledge_outgoing(&mut p.a, ALICE_HANDLE, &sent.message_id).unwrap());
    assert!(p.am.pending_outgoing(&mut p.a, ALICE_HANDLE).unwrap().is_empty());
}

#[test]
fn pending_outgoing_is_in_send_order() {
    let mut p = memory_peers();
    let sent: Vec<_> = (0u8..5).map(|i| p.alice_sends(&[i])).collect();
    assert_eq!(p.am.pending_outgoing(&mut p.a, ALICE_HANDLE).unwrap(), sent);
}

#[test]
fn a_repeated_message_is_a_duplicate_and_advances_nothing() {
    let mut p = memory_peers();
    let sent = p.alice_sends(b"once");
    let first = accepted(p.bob_receives(&sent.wire).unwrap());
    let gen = generation(&mut p.b, p.bob_pk, BOB_HANDLE);
    match p.bob_receives(&sent.wire).unwrap() {
        Received::Duplicate { message_id, undelivered: Some(m) } => {
            assert_eq!(message_id, sent.message_id);
            assert_eq!(m, first);
        }
        other => panic!("expected an undelivered duplicate, got {other:?}"),
    }
    assert_eq!(p.bm.pending_incoming(&mut p.b, BOB_HANDLE).unwrap(), vec![first.clone()]);
    assert!(p.bm.acknowledge_incoming(&mut p.b, BOB_HANDLE, &sent.message_id).unwrap());
    assert!(!p.bm.acknowledge_incoming(&mut p.b, BOB_HANDLE, &sent.message_id).unwrap());
    assert!(p.bm.pending_incoming(&mut p.b, BOB_HANDLE).unwrap().is_empty());
    assert_eq!(
        p.bob_receives(&sent.wire).unwrap(),
        Received::Duplicate { message_id: sent.message_id, undelivered: None }
    );
    assert_eq!(generation(&mut p.b, p.bob_pk, BOB_HANDLE), gen);
    let next = p.alice_sends(b"twice");
    assert_eq!(accepted(p.bob_receives(&next.wire).unwrap()).plaintext, b"twice");
}

#[test]
fn acknowledging_an_unknown_incoming_message_is_an_error() {
    let mut p = memory_peers();
    assert!(matches!(
        p.bm.acknowledge_incoming(&mut p.b, BOB_HANDLE, &[7; 32]),
        Err(MessagingError::UnknownMessage)
    ));
}

#[test]
fn a_forged_message_writes_nothing() {
    let mut p = memory_peers();
    let sent = p.alice_sends(b"real");
    let mut forged = sent.wire.clone();
    *forged.last_mut().unwrap() ^= 1;
    assert!(matches!(p.bob_receives(&forged), Err(MessagingError::Ratchet(RatchetError::Decryption))));
    assert_eq!(generation(&mut p.b, p.bob_pk, BOB_HANDLE), 0);
    assert!(p.bm.pending_incoming(&mut p.b, BOB_HANDLE).unwrap().is_empty());
    assert!(matches!(p.bob_receives(&forged[..10]), Err(MessagingError::MalformedMessage)));
    assert_eq!(accepted(p.bob_receives(&sent.wire).unwrap()).plaintext, b"real");
}

#[test]
fn out_of_order_messages_are_each_accepted_once() {
    let mut p = memory_peers();
    let m: Vec<_> = (0u8..3).map(|i| p.alice_sends(&[i])).collect();
    for i in [2usize, 0, 1] {
        assert_eq!(accepted(p.bob_receives(&m[i].wire).unwrap()).plaintext, [i as u8]);
    }
    for w in &m {
        assert!(matches!(p.bob_receives(&w.wire).unwrap(), Received::Duplicate { .. }));
    }
}

#[test]
fn the_wire_format_is_unchanged() {
    let pr = pair();
    let mut a = EncryptedStore::open_in_memory(KEY).unwrap();
    let mut am = Messenger::new();
    let (bob_ad, mut bob) = (pr.bob.ad.clone(), pr.bob.ratchet);
    am.create_session(&mut a, pr.alice_pk, new_session(ALICE_HANDLE, pr.alice, SessionRole::Initiator)).unwrap();
    let sent = am.send(&mut a, pr.alice_pk, ALICE_HANDLE, &cid(), b"compat").map(new_message).unwrap();
    let header = Header::from_bytes(&sent.wire[..HEADER_SIZE]).unwrap();
    assert_eq!(bob.decrypt(&header, &sent.wire[HEADER_SIZE..], &bob_ad).unwrap(), b"compat");
}

#[test]
fn a_conversation_survives_reopening_both_stores() {
    let (pa, pb) = (temp_db(), temp_db());
    let mut p = setup(EncryptedStore::open(&pa, KEY).unwrap(), EncryptedStore::open(&pb, KEY).unwrap());
    let (alice_pk, bob_pk) = (p.alice_pk, p.bob_pk);
    drop(p);
    for i in 0u8..4 {
        let mut p = Peers {
            a: EncryptedStore::open(&pa, KEY).unwrap(),
            b: EncryptedStore::open(&pb, KEY).unwrap(),
            am: Messenger::new(),
            bm: Messenger::new(),
            alice_pk,
            bob_pk,
        };
        let m = p.alice_sends(&[i]);
        assert_eq!(accepted(p.bob_receives(&m.wire).unwrap()).plaintext, [i]);
        let r = p.bob_sends(&[i, i]);
        assert_eq!(accepted(p.alice_receives(&r.wire).unwrap()).plaintext, [i, i]);
    }
}

// ── creation ────────────────────────────────────────────────────────────────

#[test]
fn creation_refuses_an_existing_session_and_a_taken_handle() {
    let mut p = memory_peers();
    let rival = pair();
    let mut again = rival.alice;
    again.peer_identity_pk = p.bob_pk;
    let mut ad = p.alice_pk.to_vec();
    ad.extend_from_slice(&p.bob_pk);
    again.ad = ad;
    assert!(matches!(
        p.am.create_session(&mut p.a, p.alice_pk, new_session(77, again, SessionRole::Initiator)),
        Err(MessagingError::AlreadyExists { .. })
    ));
    assert_eq!(p.am.peer_of(&mut p.a, 77).unwrap(), None, "nothing was written");
    assert!(matches!(
        p.am.create_session(&mut p.a, rival.bob_pk, new_session(ALICE_HANDLE, rival.bob, SessionRole::Responder)),
        Err(MessagingError::HandleCollision { .. })
    ));
    assert_eq!(p.am.peer_of(&mut p.a, ALICE_HANDLE).unwrap(), Some(p.bob_pk));
}

#[test]
fn an_invalid_stored_session_is_reported_and_never_replaced() {
    let mut p = memory_peers();
    let key = session_storage_key(&p.bob_pk);
    p.a.put(&key, b"garbage").unwrap();
    assert!(matches!(
        p.am.send(&mut p.a, p.alice_pk, ALICE_HANDLE, &cid(), b"x"),
        Err(MessagingError::InvalidSession(SessionCheckpointError::Truncated { .. }))
    ));
    let fresh = pair();
    let mut s = fresh.alice;
    s.peer_identity_pk = p.bob_pk;
    let mut ad = p.alice_pk.to_vec();
    ad.extend_from_slice(&p.bob_pk);
    s.ad = ad;
    assert!(matches!(
        p.am.create_session(&mut p.a, p.alice_pk, new_session(5, s, SessionRole::Initiator)),
        Err(MessagingError::AlreadyExists { .. })
    ));
    assert_eq!(p.a.get(&key).unwrap(), b"garbage");
}

#[test]
fn extra_writes_commit_with_the_session_or_not_at_all() {
    let pr = pair();
    let mut s = EncryptedStore::open_in_memory(KEY).unwrap();
    s.put("prekeys/v2", b"old").unwrap();
    let mut m = Messenger::new();
    let stale =
        SideWrite::replace("prekeys/v2".into(), b"not what is stored".to_vec(), b"new".to_vec()).unwrap();
    let mut ns = new_session(BOB_HANDLE, pr.bob, SessionRole::Responder);
    ns.extra = vec![stale];
    assert!(matches!(
        m.create_session(&mut s, pr.bob_pk, ns),
        Err(MessagingError::ExtraConflict { index: 0, conflict: Conflict::RecordChanged })
    ));
    assert_eq!(m.peer_of(&mut s, BOB_HANDLE).unwrap(), None);
    assert!(s.get(&session_storage_key(&pr.alice_pk)).is_err());
    assert_eq!(s.get("prekeys/v2").unwrap(), b"old");
}

#[test]
fn a_side_write_cannot_touch_a_session_record() {
    assert_eq!(SideWrite::insert("session:v1/00".into(), vec![1]).err(), Some(SideWriteError::ReservedKey));
}

#[test]
fn the_initial_handshake_is_kept_with_the_session() {
    let pr = pair();
    let mut s = EncryptedStore::open_in_memory(KEY).unwrap();
    let mut m = Messenger::new();
    let mut ns = new_session(ALICE_HANDLE, pr.alice, SessionRole::Initiator);
    ns.initial_outbound = Some(vec![1, 2, 3]);
    m.create_session(&mut s, pr.alice_pk, ns).unwrap();
    assert_eq!(m.initial_outbound(&mut s, ALICE_HANDLE).unwrap(), Some(vec![1, 2, 3]));
}

// ── one logical message, one ciphertext ─────────────────────────────────────

fn send_cid(p: &mut Peers, cid: &[u8], m: &[u8]) -> SendOutcome {
    p.am.send(&mut p.a, p.alice_pk, ALICE_HANDLE, cid, m).unwrap()
}

#[test]
fn a_repeated_send_of_one_logical_message_encrypts_once() {
    let mut p = memory_peers();
    let first = new_message(send_cid(&mut p, b"logical-1", b"hello"));
    let gen = generation(&mut p.a, p.alice_pk, ALICE_HANDLE);
    assert_eq!(send_cid(&mut p, b"logical-1", b"something else"), SendOutcome::AlreadyPending(first.clone()));
    assert_eq!(generation(&mut p.a, p.alice_pk, ALICE_HANDLE), gen);
    assert_eq!(p.am.pending_outgoing(&mut p.a, ALICE_HANDLE).unwrap(), vec![first.clone()]);
    assert_eq!(first.client_message_id, b"logical-1");
    assert!(matches!(p.bob_receives(&first.wire).unwrap(), Received::Accepted(_)));
    p.am.acknowledge_outgoing(&mut p.a, ALICE_HANDLE, &first.message_id).unwrap();
    assert_eq!(
        send_cid(&mut p, b"logical-1", b"hello"),
        SendOutcome::AlreadyAcknowledged { message_id: first.message_id }
    );
    assert_eq!(generation(&mut p.a, p.alice_pk, ALICE_HANDLE), gen);
}

#[test]
fn client_message_ids_must_be_1_to_64_bytes() {
    let mut p = memory_peers();
    for bad in [vec![], vec![7u8; MAX_CLIENT_MESSAGE_ID_LEN + 1]] {
        assert!(matches!(
            p.am.send(&mut p.a, p.alice_pk, ALICE_HANDLE, &bad, b"x"),
            Err(MessagingError::InvalidClientMessageId)
        ));
    }
    assert!(matches!(send_cid(&mut p, &[7u8; MAX_CLIENT_MESSAGE_ID_LEN], b"x"), SendOutcome::Sent(_)));
    assert_eq!(generation(&mut p.a, p.alice_pk, ALICE_HANDLE), 1);
}

#[test]
fn acknowledged_history_is_not_scanned_and_still_detects_duplicates() {
    let mut p = memory_peers();
    let mut wires = Vec::new();
    for i in 0..200u16 {
        let m = p.alice_sends(&i.to_be_bytes());
        let id = accepted(p.bob_receives(&m.wire).unwrap()).message_id;
        assert!(p.bm.acknowledge_incoming(&mut p.b, BOB_HANDLE, &id).unwrap());
        p.am.acknowledge_outgoing(&mut p.a, ALICE_HANDLE, &m.message_id).unwrap();
        wires.push(m.wire);
    }
    assert!(p.b.list_keys_with_prefix("inbox:").unwrap().is_empty());
    assert!(p.a.list_keys_with_prefix("outbox:").unwrap().is_empty());
    let gen = generation(&mut p.b, p.bob_pk, BOB_HANDLE);
    for w in [&wires[0], &wires[199]] {
        assert!(matches!(p.bob_receives(w).unwrap(), Received::Duplicate { undelivered: None, .. }));
    }
    assert_eq!(generation(&mut p.b, p.bob_pk, BOB_HANDLE), gen);
    let id = message_id(&wires[5]);
    assert!(!p.bm.acknowledge_incoming(&mut p.b, BOB_HANDLE, &id).unwrap());
}

#[test]
fn one_sessions_message_ids_do_not_reach_another_session() {
    let mut p = memory_peers();
    let carol_pair = pair();
    let carol_pk = carol_pair.alice_pk;
    let mut bob_side = carol_pair.bob;
    let mut ad = carol_pk.to_vec();
    ad.extend_from_slice(&p.bob_pk);
    bob_side.ad = ad.clone();
    let mut carol_session = carol_pair.alice;
    carol_session.ad = ad;
    carol_session.peer_identity_pk = p.bob_pk;
    p.bm.create_session(&mut p.b, p.bob_pk, new_session(77, bob_side, SessionRole::Responder)).unwrap();
    let mut c = EncryptedStore::open_in_memory(KEY).unwrap();
    let mut cm = Messenger::new();
    cm.create_session(&mut c, carol_pk, new_session(1, carol_session, SessionRole::Initiator)).unwrap();

    let from_carol = new_message(cm.send(&mut c, carol_pk, 1, b"c1", b"from carol").unwrap());
    let got = accepted(p.bm.receive(&mut p.b, p.bob_pk, 77, &from_carol.wire).unwrap());
    assert!(matches!(
        p.bm.acknowledge_incoming(&mut p.b, BOB_HANDLE, &got.message_id),
        Err(MessagingError::UnknownMessage)
    ));
    assert!(matches!(p.bob_receives(&from_carol.wire), Err(MessagingError::Ratchet(_))));
    assert_eq!(p.bm.pending_incoming(&mut p.b, 77).unwrap(), vec![got]);
    assert!(p.bm.pending_incoming(&mut p.b, BOB_HANDLE).unwrap().is_empty());
    assert!(matches!(
        p.bm.send(&mut p.b, p.bob_pk, BOB_HANDLE, b"c1", b"to alice"),
        Err(MessagingError::Ratchet(_))
    ));
}

#[test]
fn removing_an_unknown_handle_is_no_session() {
    let mut p = memory_peers();
    assert!(matches!(p.am.remove_session(&mut p.a, p.alice_pk, 999), Err(MessagingError::NoSession { .. })));
}

// ── session lifecycle ───────────────────────────────────────────────────────

fn replacement(p: &Peers) -> (Session, Session) {
    let fresh = pair();
    let mut ad = p.alice_pk.to_vec();
    ad.extend_from_slice(&p.bob_pk);
    let alice = Session { ad: ad.clone(), peer_identity_pk: p.bob_pk, ..fresh.alice };
    let bob = Session { ad, peer_identity_pk: p.alice_pk, ..fresh.bob };
    (alice, bob)
}

fn remove_alice(p: &mut Peers) -> Result<(), MessagingError> {
    p.am.remove_session(&mut p.a, p.alice_pk, ALICE_HANDLE)
}

fn remove_bob(p: &mut Peers) -> Result<(), MessagingError> {
    p.bm.remove_session(&mut p.b, p.bob_pk, BOB_HANDLE)
}

fn recreate_alice(p: &mut Peers, s: Session) -> Result<(), MessagingError> {
    let mut ns = new_session(ALICE_HANDLE, s, SessionRole::Initiator);
    ns.initial_outbound = Some(b"handshake 2".to_vec());
    p.am.create_session(&mut p.a, p.alice_pk, ns)
}

fn send(p: &mut Peers, cid: &[u8], m: &[u8]) -> SendOutcome {
    p.am.send(&mut p.a, p.alice_pk, ALICE_HANDLE, cid, m).unwrap()
}

#[test]
fn pending_outgoing_blocks_removal_until_acknowledged_or_abandoned() {
    let mut p = memory_peers();
    let m1 = new_message(send(&mut p, b"L1", b"one"));
    let m2 = new_message(send(&mut p, b"L2", b"two"));
    assert!(matches!(remove_alice(&mut p), Err(MessagingError::PendingOutgoing { count: 2 })));
    assert_eq!(generation(&mut p.a, p.alice_pk, ALICE_HANDLE), 2);
    assert_eq!(keys(&mut p.a, "outbox:"), 2);

    assert!(p.am.acknowledge_outgoing(&mut p.a, ALICE_HANDLE, &m1.message_id).unwrap());
    assert!(matches!(remove_alice(&mut p), Err(MessagingError::PendingOutgoing { count: 1 })));
    assert!(p.am.abandon_outgoing(&mut p.a, ALICE_HANDLE, &m2.message_id).unwrap());
    assert!(!p.am.abandon_outgoing(&mut p.a, ALICE_HANDLE, &m2.message_id).unwrap());
    assert!(!p.am.abandon_outgoing(&mut p.a, ALICE_HANDLE, &m1.message_id).unwrap());
    assert!(!p.am.acknowledge_outgoing(&mut p.a, ALICE_HANDLE, &m2.message_id).unwrap());
    remove_alice(&mut p).unwrap();
    assert_eq!(keys(&mut p.a, "session:") + keys(&mut p.a, "handle:") + keys(&mut p.a, "outbox:"), 0);

    let (s2, _) = replacement(&p);
    recreate_alice(&mut p, s2).unwrap();
    let gen = generation(&mut p.a, p.alice_pk, ALICE_HANDLE);
    assert_eq!(send(&mut p, b"L1", b"one"), SendOutcome::AlreadyAcknowledged { message_id: m1.message_id });
    assert_eq!(send(&mut p, b"L2", b"two"), SendOutcome::Abandoned { message_id: m2.message_id });
    assert_eq!(generation(&mut p.a, p.alice_pk, ALICE_HANDLE), gen);
    assert!(p.am.pending_outgoing(&mut p.a, ALICE_HANDLE).unwrap().is_empty());
    for old in [&m1.message_id, &m2.message_id] {
        assert!(!p.am.acknowledge_outgoing(&mut p.a, ALICE_HANDLE, old).unwrap());
        assert!(!p.am.abandon_outgoing(&mut p.a, ALICE_HANDLE, old).unwrap());
        assert!(matches!(
            p.am.acknowledge_incoming(&mut p.a, ALICE_HANDLE, old),
            Err(MessagingError::UnknownMessage)
        ));
    }
    let fresh = new_message(send(&mut p, b"L3", b"three"));
    assert_eq!(fresh.generation, 1);
}

#[test]
fn an_established_session_is_not_removed() {
    let mut p = memory_peers();
    let m = p.alice_sends(b"unread");
    let got = accepted(p.bob_receives(&m.wire).unwrap());
    assert!(matches!(remove_bob(&mut p), Err(MessagingError::SessionEstablished)));
    assert_eq!(p.bm.pending_incoming(&mut p.b, BOB_HANDLE).unwrap().len(), 1);
    p.bm.acknowledge_incoming(&mut p.b, BOB_HANDLE, &got.message_id).unwrap();
    assert!(matches!(remove_bob(&mut p), Err(MessagingError::SessionEstablished)));

    p.am.acknowledge_outgoing(&mut p.a, ALICE_HANDLE, &m.message_id).unwrap();
    let reply = p.bob_sends(b"reply");
    accepted(p.alice_receives(&reply.wire).unwrap());
    assert!(matches!(remove_alice(&mut p), Err(MessagingError::SessionEstablished)));
    assert_eq!(generation(&mut p.b, p.bob_pk, BOB_HANDLE), 2);
}

#[test]
fn a_logical_message_is_never_accepted_under_two_sessions() {
    let mut p = memory_peers();
    let m = new_message(send(&mut p, b"L", b"pay 10"));
    let got = accepted(p.bob_receives(&m.wire).unwrap());
    p.bm.acknowledge_incoming(&mut p.b, BOB_HANDLE, &got.message_id).unwrap();
    p.am.abandon_outgoing(&mut p.a, ALICE_HANDLE, &m.message_id).unwrap();
    remove_alice(&mut p).unwrap();
    let (s2a, s2b) = replacement(&p);
    recreate_alice(&mut p, s2a).unwrap();
    assert!(matches!(
        p.bm.create_session(&mut p.b, p.bob_pk, new_session(7, s2b, SessionRole::Responder)),
        Err(MessagingError::AlreadyExists { .. })
    ));
    assert_eq!(send(&mut p, b"L", b"pay 10"), SendOutcome::Abandoned { message_id: m.message_id });
    let again = new_message(send(&mut p, b"L-resent", b"pay 10"));
    assert!(matches!(p.bob_receives(&again.wire), Err(MessagingError::Ratchet(_))));
    assert_eq!(generation(&mut p.b, p.bob_pk, BOB_HANDLE), 1);
}

#[test]
fn a_refused_handshake_is_replaced_after_a_restart() {
    let path = temp_db();
    let mut p = setup(EncryptedStore::open(&path, KEY).unwrap(), EncryptedStore::open_in_memory(KEY).unwrap());
    remove_alice(&mut p).unwrap();
    let (s1, _) = replacement(&p);
    recreate_alice(&mut p, s1).unwrap();
    let m = new_message(send(&mut p, b"first", b"hi"));
    p.a = EncryptedStore::open(&path, KEY).unwrap();
    p.am = Messenger::new();
    assert_eq!(p.am.initial_outbound(&mut p.a, ALICE_HANDLE).unwrap(), Some(b"handshake 2".to_vec()));
    assert!(matches!(remove_alice(&mut p), Err(MessagingError::PendingOutgoing { count: 1 })));
    assert_eq!(keys(&mut p.a, "hsout:"), 1);
    p.am.abandon_outgoing(&mut p.a, ALICE_HANDLE, &m.message_id).unwrap();
    remove_alice(&mut p).unwrap();
    assert_eq!(keys(&mut p.a, "hsout:"), 0);
    let (s2a, s2b) = replacement(&p);
    recreate_alice(&mut p, s2a).unwrap();
    let mut b = EncryptedStore::open_in_memory(KEY).unwrap();
    let mut bm = Messenger::new();
    bm.create_session(&mut b, p.bob_pk, new_session(BOB_HANDLE, s2b, SessionRole::Responder)).unwrap();
    let hi = new_message(send(&mut p, b"first-again", b"hi"));
    assert_eq!(accepted(bm.receive(&mut b, p.bob_pk, BOB_HANDLE, &hi.wire).unwrap()).plaintext, b"hi");
}

#[test]
fn replacing_a_handshake_the_peer_accepted_forks_nothing() {
    let mut p = memory_peers();
    let m = new_message(send(&mut p, b"L", b"to S1"));
    accepted(p.bob_receives(&m.wire).unwrap());
    p.am.acknowledge_outgoing(&mut p.a, ALICE_HANDLE, &m.message_id).unwrap();
    let late = p.bob_sends(b"from S1, arriving late");
    remove_alice(&mut p).unwrap();
    let (s2a, s2b) = replacement(&p);
    recreate_alice(&mut p, s2a).unwrap();
    assert!(matches!(
        p.bm.create_session(&mut p.b, p.bob_pk, new_session(7, s2b, SessionRole::Responder)),
        Err(MessagingError::AlreadyExists { .. })
    ));
    let gen = generation(&mut p.a, p.alice_pk, ALICE_HANDLE);
    assert!(matches!(p.alice_receives(&late.wire), Err(MessagingError::Ratchet(_))));
    assert_eq!(generation(&mut p.a, p.alice_pk, ALICE_HANDLE), gen);
    assert_eq!(keys(&mut p.a, "inbox:"), 0);

    let mut q = memory_peers();
    let old = q.alice_sends(b"of the old session");
    remove_bob(&mut q).unwrap();
    let (_, s2b) = replacement(&q);
    q.bm.create_session(&mut q.b, q.bob_pk, new_session(BOB_HANDLE, s2b, SessionRole::Responder)).unwrap();
    assert!(matches!(q.bob_receives(&old.wire), Err(MessagingError::Ratchet(_))));
    assert_eq!(generation(&mut q.b, q.bob_pk, BOB_HANDLE), 0);
    assert_eq!(keys(&mut q.b, "inbox:") + keys(&mut q.b, "seen:"), 0);
}

#[test]
fn an_unreadable_session_is_not_removed() {
    let mut p = memory_peers();
    let key = session_storage_key(&p.bob_pk);
    p.a.put(&key, b"garbage").unwrap();
    assert!(matches!(remove_alice(&mut p), Err(MessagingError::InvalidSession(_))));
    assert_eq!(p.a.get(&key).unwrap(), b"garbage");
    assert_eq!(p.am.peer_of(&mut p.a, ALICE_HANDLE).unwrap(), Some(p.bob_pk));
    assert!(matches!(p.am.remove_session(&mut p.a, p.alice_pk, 999), Err(MessagingError::NoSession { .. })));
}
