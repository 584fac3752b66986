use arcium_core::durable::{
    CommitError, Conflict, DurableSession, OpenError, S1CheckpointStore, SideWrite, SideWriteError,
    StageError,
};
use arcium_core::ratchet::checkpoint::CheckpointError;
use arcium_core::ratchet::{DoubleRatchet, Header, RatchetError, MAX_SKIP};
use arcium_core::session::Session;
use arcium_core::session_checkpoint::{
    encode_session_checkpoint, session_storage_key, SessionBinding, SessionCheckpointError, SessionRole,
};
use arcium_core::storage::EncryptedStore;
use rand_core::{OsRng, RngCore};
use x25519_dalek::{PublicKey, StaticSecret};

const MASTER_KEY: [u8; 32] = [0x42; 32];

fn secret() -> [u8; 32] {
    let mut k = [0u8; 32];
    OsRng.fill_bytes(&mut k);
    k
}

fn public_of(sk: &[u8; 32]) -> [u8; 32] {
    PublicKey::from(&StaticSecret::from(*sk)).to_bytes()
}

struct Pair {
    alice: Session,
    bob: Session,
    alice_pk: [u8; 32],
    bob_pk: [u8; 32],
}

fn pair() -> Pair {
    let alice_pk = public_of(&secret());
    let bob_pk = public_of(&secret());
    let mut ad = alice_pk.to_vec();
    ad.extend_from_slice(&bob_pk);
    let spk = secret();
    let root = [5u8; 32];
    Pair {
        alice: Session {
            ratchet: DoubleRatchet::init_alice(root, public_of(&spk)),
            ad: ad.clone(),
            peer_identity_pk: bob_pk,
        },
        bob: Session { ratchet: DoubleRatchet::init_bob(root, spk), ad, peer_identity_pk: alice_pk },
        alice_pk,
        bob_pk,
    }
}

fn binding(our: [u8; 32], peer: [u8; 32]) -> SessionBinding {
    SessionBinding { our_identity_pk: our, peer_identity_pk: peer }
}

#[test]
fn missing_and_invalid_records_are_distinguished() {
    let p = pair();
    let mut db = EncryptedStore::open_in_memory(MASTER_KEY).unwrap();
    let b = binding(p.alice_pk, p.bob_pk);
    assert!(DurableSession::load(&mut S1CheckpointStore::new(&mut db), &b).unwrap().is_none());
    db.put(&session_storage_key(&p.bob_pk), b"garbage").unwrap();
    assert!(matches!(
        DurableSession::load(&mut S1CheckpointStore::new(&mut db), &b),
        Err(OpenError::Invalid(SessionCheckpointError::Truncated { .. }))
    ));
    assert!(matches!(
        DurableSession::create(&mut S1CheckpointStore::new(&mut db), p.alice, SessionRole::Initiator, p.alice_pk),
        Err(OpenError::AlreadyExists)
    ));
    assert_eq!(db.get(&session_storage_key(&p.bob_pk)).unwrap(), b"garbage");
}

#[test]
fn side_writes_commit_with_the_checkpoint_and_are_checked() {
    let p = pair();
    let mut db = EncryptedStore::open_in_memory(MASTER_KEY).unwrap();
    assert!(matches!(
        SideWrite::insert("session:x".to_string(), b"v".to_vec()),
        Err(SideWriteError::ReservedKey)
    ));
    let side = [SideWrite::insert("extra:one".to_string(), b"v1".to_vec()).unwrap()];
    let mut s = DurableSession::create_with(
        &mut S1CheckpointStore::new(&mut db),
        p.alice,
        SessionRole::Initiator,
        p.alice_pk,
        &side,
    )
    .unwrap();
    assert_eq!(db.get("extra:one").unwrap(), b"v1");
    let dup = [
        SideWrite::insert("extra:two".to_string(), b"a".to_vec()).unwrap(),
        SideWrite::insert("extra:two".to_string(), b"b".to_vec()).unwrap(),
    ];
    let staged = s.stage_encrypt(b"m").unwrap();
    assert!(matches!(
        s.commit_with(&mut S1CheckpointStore::new(&mut db), staged, &dup),
        Err(CommitError::SideWrite(SideWriteError::DuplicateKey))
    ));
    let again = [SideWrite::insert("extra:one".to_string(), b"v2".to_vec()).unwrap()];
    let staged = s.stage_encrypt(b"m").unwrap();
    assert!(matches!(
        s.commit_with(&mut S1CheckpointStore::new(&mut db), staged, &again),
        Err(CommitError::SideConflict { index: 0, conflict: Conflict::RecordExists })
    ));
    assert_eq!(s.generation(), 0, "a side conflict leaves the instance usable and unchanged");
    let replace = [SideWrite::replace("extra:one".to_string(), b"v1".to_vec(), b"v2".to_vec()).unwrap()];
    let staged = s.stage_encrypt(b"m").unwrap();
    s.commit_with(&mut S1CheckpointStore::new(&mut db), staged, &replace).unwrap();
    assert_eq!(db.get("extra:one").unwrap(), b"v2");
    assert_eq!(s.generation(), 1);
}

// ── helpers in the shape of the session store's own ─────────────────────────

fn memdb() -> EncryptedStore {
    EncryptedStore::open_in_memory(MASTER_KEY).unwrap()
}

fn temp_db() -> String {
    let mut b = [0u8; 8];
    OsRng.fill_bytes(&mut b);
    format!("/tmp/arcium-core-sessions-{:016x}.db", u64::from_le_bytes(b))
}

fn filedb(path: &str) -> EncryptedStore {
    EncryptedStore::open(path, MASTER_KEY).unwrap()
}

fn s1(db: &mut EncryptedStore) -> S1CheckpointStore<'_> {
    S1CheckpointStore::new(db)
}

/// Another initiator session for the same identities as `p.alice`.
fn rival_initiator(p: &Pair) -> Session {
    let mut ad = p.alice_pk.to_vec();
    ad.extend_from_slice(&p.bob_pk);
    Session {
        ratchet: DoubleRatchet::init_alice([6u8; 32], public_of(&secret())),
        ad,
        peer_identity_pk: p.bob_pk,
    }
}

fn installed(s: &DurableSession) -> Vec<u8> {
    s.installed_checkpoint()
}

fn stored(db: &mut EncryptedStore, s: &DurableSession) -> Vec<u8> {
    db.get(s.key()).expect("record present")
}

fn send(s: &mut DurableSession, db: &mut EncryptedStore, m: &[u8]) -> (Header, Vec<u8>) {
    let staged = s.stage_encrypt(m).unwrap();
    s.commit(&mut s1(db), staged).unwrap()
}

fn recv(s: &mut DurableSession, db: &mut EncryptedStore, m: &(Header, Vec<u8>)) -> Vec<u8> {
    let staged = s.stage_decrypt(&m.0, &m.1).unwrap();
    s.commit(&mut s1(db), staged).unwrap()
}

fn load(db: &mut EncryptedStore, b: &SessionBinding) -> DurableSession {
    match DurableSession::load(&mut s1(db), b) {
        Ok(Some(s)) => s,
        _ => panic!("session present and valid"),
    }
}

fn create(db: &mut EncryptedStore, s: Session, role: SessionRole, our: [u8; 32]) -> DurableSession {
    match DurableSession::create(&mut s1(db), s, role, our) {
        Ok(s) => s,
        Err(e) => panic!("create: {e:?}"),
    }
}

// ── loading and creation ────────────────────────────────────────────────────

#[test]
fn create_refuses_to_replace_an_existing_session() {
    let p = pair();
    let mut db = memdb();
    let rival = rival_initiator(&p);
    let s = create(&mut db, p.alice, SessionRole::Initiator, p.alice_pk);
    let before = stored(&mut db, &s);
    assert!(matches!(
        DurableSession::create(&mut s1(&mut db), rival, SessionRole::Initiator, p.alice_pk),
        Err(OpenError::AlreadyExists)
    ));
    assert_eq!(stored(&mut db, &s), before);
}

#[test]
fn load_checks_the_binding() {
    let p = pair();
    let mut db = memdb();
    create(&mut db, p.alice, SessionRole::Initiator, p.alice_pk);
    let other = public_of(&secret());
    assert!(matches!(
        DurableSession::load(&mut s1(&mut db), &binding(other, p.bob_pk)),
        Err(OpenError::Invalid(SessionCheckpointError::OurIdentityMismatch))
    ));
}

#[test]
fn p4_creation_on_a_second_connection_does_not_replace_the_first() {
    let path = temp_db();
    let (mut c1, mut c2) = (filedb(&path), filedb(&path));
    let p = pair();
    let rival = rival_initiator(&p);
    let rival_dh = rival.ratchet.our_dh_public();
    create(&mut c2, rival, SessionRole::Initiator, p.alice_pk);
    assert!(matches!(
        DurableSession::create(&mut s1(&mut c1), p.alice, SessionRole::Initiator, p.alice_pk),
        Err(OpenError::AlreadyExists)
    ));
    let kept = load(&mut c1, &binding(p.alice_pk, p.bob_pk));
    let restored = DoubleRatchet::from_checkpoint(&kept.installed_checkpoint()).unwrap();
    assert_eq!(restored.our_dh_public(), rival_dh);
}

// ── stale instances ─────────────────────────────────────────────────────────

#[test]
fn p1_stale_instance_cannot_overwrite_a_newer_generation() {
    let path = temp_db();
    let (mut c1, mut c2) = (filedb(&path), filedb(&path));
    let p = pair();
    let b = binding(p.alice_pk, p.bob_pk);
    create(&mut c1, p.alice, SessionRole::Initiator, p.alice_pk);
    let mut stale = load(&mut c1, &b);
    let mut fresh = load(&mut c2, &b);
    for m in [b"a", b"b", b"c"] {
        send(&mut fresh, &mut c2, m);
    }
    let newest = stored(&mut c1, &fresh);
    let before = installed(&stale);

    let staged = stale.stage_encrypt(b"competing").unwrap();
    match stale.commit(&mut s1(&mut c1), staged) {
        Err(CommitError::Conflict(Conflict::GenerationMismatch { expected: 0, found: 3 })) => {}
        other => panic!("expected a generation conflict, got {:?}", other.map(|_| ())),
    }
    assert_eq!(stored(&mut c1, &fresh), newest);
    assert_eq!(installed(&stale), before);
    assert_eq!(stale.generation(), 0);
    assert!(stale.is_conflicted());
    assert!(matches!(stale.stage_encrypt(b"again"), Err(StageError::Conflicted)));
    assert_eq!(load(&mut c1, &b).generation(), 3);
    send(&mut fresh, &mut c2, b"d");
}

#[test]
fn p2_two_instances_cannot_both_release_a_ciphertext_for_one_generation() {
    let p = pair();
    let mut db = memdb();
    let b = binding(p.alice_pk, p.bob_pk);
    create(&mut db, p.alice, SessionRole::Initiator, p.alice_pk);
    let mut x = load(&mut db, &b);
    let mut y = load(&mut db, &b);
    let tx = x.stage_encrypt(b"x").unwrap();
    let ty = y.stage_encrypt(b"y").unwrap();
    assert!(x.commit(&mut s1(&mut db), tx).is_ok());
    assert!(matches!(
        y.commit(&mut s1(&mut db), ty),
        Err(CommitError::Conflict(Conflict::GenerationMismatch { .. }))
    ));
}

/// Each case runs against its own freshly created session, since a
/// conflicted instance refuses every later transition.
#[test]
fn predecessor_check_covers_missing_invalid_rebound_and_other_role_records() {
    fn commit_against(db: &mut EncryptedStore, s: &mut DurableSession) -> Result<(Header, Vec<u8>), CommitError> {
        let staged = s.stage_encrypt(b"m").unwrap();
        s.commit(&mut s1(db), staged)
    }
    let mut fresh = |p: Pair| -> (Pair, EncryptedStore, DurableSession, String) {
        let mut db = memdb();
        let alice = Session {
            ratchet: DoubleRatchet::init_alice([5u8; 32], public_of(&secret())),
            ad: p.alice.ad.clone(),
            peer_identity_pk: p.bob_pk,
        };
        let s = create(&mut db, alice, SessionRole::Initiator, p.alice_pk);
        let key = session_storage_key(&p.bob_pk);
        (p, db, s, key)
    };

    let (p, mut db, mut s, key) = fresh(pair());
    db.delete(&key).unwrap();
    assert!(matches!(commit_against(&mut db, &mut s), Err(CommitError::Conflict(Conflict::RecordMissing))));
    assert_eq!(s.generation(), 0);

    let (p, mut db, mut s, key) = fresh(p);
    db.put(&key, b"garbage").unwrap();
    assert!(matches!(
        commit_against(&mut db, &mut s),
        Err(CommitError::Conflict(Conflict::StoredRecordInvalid(_)))
    ));
    assert_eq!(s.generation(), 0);

    let (p, mut db, mut s, key) = fresh(p);
    let other_us = public_of(&secret());
    let mut ad = other_us.to_vec();
    ad.extend_from_slice(&p.bob_pk);
    let foreign = Session {
        ratchet: DoubleRatchet::init_alice([1; 32], public_of(&secret())),
        ad,
        peer_identity_pk: p.bob_pk,
    };
    let rec = encode_session_checkpoint(&foreign, SessionRole::Initiator, &other_us, 0).unwrap();
    db.put(&key, &rec).unwrap();
    assert!(matches!(
        commit_against(&mut db, &mut s),
        Err(CommitError::Conflict(Conflict::BindingMismatch(_)))
    ));
    assert_eq!(s.generation(), 0);

    let (p, mut db, mut s, key) = fresh(p);
    let mut ad = p.bob_pk.to_vec();
    ad.extend_from_slice(&p.alice_pk);
    let responder = Session {
        ratchet: DoubleRatchet::init_bob([1; 32], secret()),
        ad,
        peer_identity_pk: p.bob_pk,
    };
    let rec = encode_session_checkpoint(&responder, SessionRole::Responder, &p.alice_pk, 0).unwrap();
    db.put(&key, &rec).unwrap();
    assert!(matches!(commit_against(&mut db, &mut s), Err(CommitError::Conflict(Conflict::RoleMismatch))));
    assert_eq!(s.generation(), 0);
}

// ── transitions ─────────────────────────────────────────────────────────────

#[test]
fn conversation_survives_reloading_both_sides_from_the_store() {
    let p = pair();
    let (mut da, mut dbb) = (memdb(), memdb());
    let (ba, bb) = (binding(p.alice_pk, p.bob_pk), binding(p.bob_pk, p.alice_pk));
    create(&mut da, p.alice, SessionRole::Initiator, p.alice_pk);
    create(&mut dbb, p.bob, SessionRole::Responder, p.bob_pk);
    for i in 0u8..4 {
        let mut a = load(&mut da, &ba);
        let msg = send(&mut a, &mut da, &[i]);
        let mut b = load(&mut dbb, &bb);
        assert_eq!(recv(&mut b, &mut dbb, &msg), [i]);
        drop((a, b));

        let mut b = load(&mut dbb, &bb);
        assert_eq!(b.role(), SessionRole::Responder);
        let reply = send(&mut b, &mut dbb, &[i, i]);
        let mut a = load(&mut da, &ba);
        assert_eq!(recv(&mut a, &mut da, &reply), [i, i]);
        assert_eq!(a.generation(), 2 * u64::from(i) + 2);
    }
}

#[test]
fn staging_does_not_touch_installed_or_stored_state() {
    let p = pair();
    let mut db = memdb();
    let s = create(&mut db, p.alice, SessionRole::Initiator, p.alice_pk);
    let (mem, disk) = (installed(&s), stored(&mut db, &s));
    let staged = s.stage_encrypt(b"x").unwrap();
    assert_eq!(staged.generation(), 1);
    assert_eq!(installed(&s), mem);
    assert_eq!(stored(&mut db, &s), disk);
    drop(staged);
    assert_eq!(installed(&s), mem);
    assert_eq!(s.generation(), 0);
}

#[test]
fn uncommitted_s1_transaction_leaves_the_previous_generation() {
    let p = pair();
    let mut db = memdb();
    let b = binding(p.alice_pk, p.bob_pk);
    let mut s = create(&mut db, p.alice, SessionRole::Initiator, p.alice_pk);
    send(&mut s, &mut db, b"one");
    let committed = stored(&mut db, &s);

    let staged = s.stage_encrypt(b"two").unwrap();
    {
        let mut tx = db.transaction().unwrap();
        tx.put(s.key(), staged.record()).unwrap();
    }
    drop(staged);
    assert_eq!(stored(&mut db, &s), committed);
    let reloaded = load(&mut db, &b);
    assert_eq!(reloaded.generation(), 1);
    assert_eq!(installed(&reloaded), installed(&s));
}

#[test]
fn a_transition_commits_only_onto_the_state_it_was_staged_from() {
    let p = pair();
    let mut db = memdb();
    let b = binding(p.alice_pk, p.bob_pk);
    let mut s = create(&mut db, p.alice, SessionRole::Initiator, p.alice_pk);
    let first = s.stage_encrypt(b"a").unwrap();
    let second = s.stage_encrypt(b"b").unwrap();
    s.commit(&mut s1(&mut db), first).unwrap();
    let after_first = stored(&mut db, &s);
    assert!(matches!(s.commit(&mut s1(&mut db), second), Err(CommitError::StaleTransition)));
    assert_eq!(stored(&mut db, &s), after_first);

    let mut other = load(&mut db, &b);
    let staged = s.stage_encrypt(b"c").unwrap();
    assert!(matches!(other.commit(&mut s1(&mut db), staged), Err(CommitError::StaleTransition)));
}

#[test]
fn a_failed_decrypt_stages_nothing() {
    let p = pair();
    let mut db = memdb();
    let s = create(&mut db, p.bob, SessionRole::Responder, p.bob_pk);
    let mem = installed(&s);
    let forged = Header { dh: [7; 32], pn: 0, n: 0 };
    assert!(matches!(
        s.stage_decrypt(&forged, &[0u8; 40]),
        Err(StageError::Ratchet(RatchetError::Decryption))
    ));
    assert_eq!(installed(&s), mem);
}

#[test]
fn receive_counter_limit_is_enforced_on_load_and_on_stage() {
    const LIMIT: u32 = u32::MAX - MAX_SKIP - 1;

    let p = pair();
    let (mut alice, mut bob_r) = (p.alice.ratchet, p.bob.ratchet);
    let (h, c) = alice.encrypt(b"sync", &p.alice.ad).unwrap();
    bob_r.decrypt(&h, &c, &p.bob.ad).unwrap();
    let with_counter = |r: &DoubleRatchet, off: usize, v: u32| {
        let mut rec = r.to_checkpoint().unwrap().to_vec();
        rec[off..off + 4].copy_from_slice(&v.to_be_bytes());
        DoubleRatchet::from_checkpoint(&rec)
    };
    let Ok(mut alice) = with_counter(&alice, 162, LIMIT) else { panic!("ns") };
    let Ok(bob_r) = with_counter(&bob_r, 166, LIMIT) else { panic!("nr") };
    assert!(matches!(with_counter(&bob_r, 166, LIMIT + 1), Err(CheckpointError::CounterExhausted("nr"))));

    let mut db = memdb();
    let bob = Session { ratchet: bob_r, ad: p.bob.ad.clone(), peer_identity_pk: p.alice_pk };
    let s = create(&mut db, bob, SessionRole::Responder, p.bob_pk);
    let (mem, disk) = (installed(&s), stored(&mut db, &s));

    let (h, c) = alice.encrypt(b"over", &p.alice.ad).unwrap();
    assert_eq!(h.n, LIMIT);
    assert!(matches!(
        s.stage_decrypt(&h, &c),
        Err(StageError::Checkpoint(SessionCheckpointError::Ratchet(CheckpointError::CounterExhausted("nr"))))
    ));
    let forged = Header { dh: h.dh, pn: 0, n: u32::MAX };
    assert!(matches!(s.stage_decrypt(&forged, &[0u8; 40]), Err(StageError::Ratchet(RatchetError::SkipLimit))));
    assert_eq!(installed(&s), mem);
    assert_eq!(stored(&mut db, &s), disk);

    let mut rec = disk.to_vec();
    rec[149 + 166..149 + 170].copy_from_slice(&(LIMIT + 1).to_be_bytes());
    db.put(s.key(), &rec).unwrap();
    assert!(matches!(
        DurableSession::load(&mut s1(&mut db), &binding(p.bob_pk, p.alice_pk)),
        Err(OpenError::Invalid(SessionCheckpointError::Ratchet(CheckpointError::CounterExhausted("nr"))))
    ));
}

#[test]
fn from_record_maps_each_read_result() {
    let p = pair();
    let b = binding(p.alice_pk, p.bob_pk);
    assert!(matches!(DurableSession::from_record(None, &b), Ok(None)));
    assert!(matches!(
        DurableSession::from_record(Some(vec![1, 2, 3]), &b),
        Err(OpenError::Invalid(_))
    ));
    let record = encode_session_checkpoint(&p.alice, SessionRole::Initiator, &p.alice_pk, 7).unwrap();
    let s = DurableSession::from_record(Some(record.clone()), &b).unwrap().unwrap();
    assert_eq!(s.generation(), 7);
    assert_eq!(s.role(), SessionRole::Initiator);
    let other = binding(p.bob_pk, p.alice_pk);
    assert!(matches!(
        DurableSession::from_record(Some(record), &other),
        Err(OpenError::Invalid(_))
    ));
}
