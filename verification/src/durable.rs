//! Staged ratchet transitions with an explicit, conditional commit boundary.
//!
//! A transition (one encrypt or one decrypt) runs on an independent copy of
//! the ratchet. The copy's new state is encoded, and only once the store
//! reports that record as committed is the copy installed and the
//! operation's output (ciphertext or plaintext) handed out. Until then the
//! installed state is untouched and the output is withheld.
//!
//! Every write is a compare-and-update performed by the store inside one
//! transaction: creating a session requires that no record exists, and a
//! transition requires that the stored record is the predecessor this
//! instance holds — same binding, same role, same generation. A failed check
//! is a [`Conflict`]: nothing is written, the staged state and its output are
//! discarded, and the instance refuses further transitions. When the store
//! cannot say whether a write took effect, the instance becomes unresolved
//! and refuses every further transition.
//!
//! Not provided: power-loss durability beyond the store's configuration,
//! rollback protection against an older database file, or persistence of the
//! unresolved and conflicted states, which live only in the instance.

use vstd::prelude::*;
use vstd::string::StringSliceAdditionalSpecFns;

pub(crate) mod sealed;

use vstd::utf8::encode_utf8;

use crate::buf::bytes_eq;
use crate::bytes::u64_from_le;
use crate::crypto::{aead_max_plaintext, fill_random, x25519_public_spec};
use crate::ratchet::checkpoint::encode_error;
use crate::ratchet::{
    chain_next, header_bytes, message_key, receive_spec, sealed_under, DoubleRatchet, Header,
    RatchetError, RatchetState,
};
use crate::session::Session;
use crate::session_checkpoint::{
    decode_session_checkpoint, encode_parts, encode_session_checkpoint, expected_ad_spec,
    lemma_session_record_is_canonical, lemma_storage_key_len, session_decode_spec,
    session_encode_spec, session_record_spec, session_storage_key, session_storage_key_spec,
    SessionBinding, SessionCheckpointError, SessionRole,
};
use crate::ratchet::checkpoint::record_spec;
use crate::storage::{
    open_value_spec, storage_key_spec, stored_value, DbCall, EncryptedStore, StorageError,
};
pub use crate::storage::{lemma_one_more, one_more};

pub use sealed::{Current, Expect, Write, WriteFailure, WriteModel};
use sealed::{
    batch_model, conflict_possible, current_model, expect_model, keys_storable, satisfiable, Store,
    write_model,
};

verus! {

/// Why a conditional write was refused. Nothing was written.
#[derive(Debug, Clone, PartialEq, Eq)]
pub enum Conflict {
    /// Creating a record, but a record (valid or not) already exists.
    RecordExists,
    /// Replacing a record, but none is stored.
    RecordMissing,
    /// A row exists but the store could not authenticate it.
    StoredRecordUnreadable,
    /// The stored session record is malformed or unsupported.
    StoredRecordInvalid(SessionCheckpointError),
    /// The stored session record is bound to other identities.
    BindingMismatch(SessionCheckpointError),
    /// The stored session record is for the other X3DH role.
    RoleMismatch,
    /// The stored session record is at another generation: another instance
    /// has written since this one loaded, or the store was rolled back.
    GenerationMismatch { expected: u64, found: u64 },
    /// A record required to be byte-identical to what the caller read has
    /// changed since.
    RecordChanged,
}

/// What a write requires of the stored record, as a value.
pub enum ExpectModel {
    Absent,
    Predecessor { generation: u64, role: SessionRole, our: Seq<u8>, peer: Seq<u8> },
    Exactly(Seq<u8>),
}

/// The stored record, as a value.
pub enum CurrentModel {
    Missing,
    Unreadable,
    Present(Seq<u8>),
}

/// Whether `current` satisfies `expect`, and the conflict if not.
pub open spec fn precondition_spec(current: CurrentModel, expect: ExpectModel) -> Result<(), Conflict> {
    match expect {
        ExpectModel::Absent => match current {
            CurrentModel::Missing => Ok(()),
            _ => Err(Conflict::RecordExists),
        },
        ExpectModel::Exactly(want) => match current {
            CurrentModel::Missing => Err(Conflict::RecordMissing),
            CurrentModel::Unreadable => Err(Conflict::StoredRecordUnreadable),
            CurrentModel::Present(have) => if have == want {
                Ok(())
            } else {
                Err(Conflict::RecordChanged)
            },
        },
        ExpectModel::Predecessor { generation, role, our, peer } => match current {
            CurrentModel::Missing => Err(Conflict::RecordMissing),
            CurrentModel::Unreadable => Err(Conflict::StoredRecordUnreadable),
            CurrentModel::Present(bytes) => match session_decode_spec(bytes, our, peer) {
                Err(e) => if e is OurIdentityMismatch || e is PeerIdentityMismatch {
                    Err(Conflict::BindingMismatch(e))
                } else {
                    Err(Conflict::StoredRecordInvalid(e))
                },
                Ok(d) => if d.role != role {
                    Err(Conflict::RoleMismatch)
                } else if d.generation != generation {
                    Err(Conflict::GenerationMismatch { expected: generation, found: d.generation })
                } else {
                    Ok(())
                },
            },
        },
    }
}

/// Decides whether `current` satisfies `expect`. Runs inside the store's
/// write transaction.
pub fn check_precondition(current: Current<'_>, expect: &Expect<'_>) -> (r: Result<(), Conflict>)
    ensures
        r == precondition_spec(current_model(current), expect_model(*expect)),
{
    match expect {
        Expect::Absent => match current {
            Current::Missing => Ok(()),
            _ => Err(Conflict::RecordExists),
        },
        Expect::Exactly(want) => match current {
            Current::Missing => Err(Conflict::RecordMissing),
            Current::Unreadable => Err(Conflict::StoredRecordUnreadable),
            Current::Present(have) => if bytes_eq(have, want) {
                Ok(())
            } else {
                Err(Conflict::RecordChanged)
            },
        },
        Expect::Predecessor { generation, role, binding } => match current {
            Current::Missing => Err(Conflict::RecordMissing),
            Current::Unreadable => Err(Conflict::StoredRecordUnreadable),
            Current::Present(bytes) => match decode_session_checkpoint(bytes, binding) {
                Err(e) => match e {
                    SessionCheckpointError::OurIdentityMismatch
                    | SessionCheckpointError::PeerIdentityMismatch => Err(Conflict::BindingMismatch(e)),
                    _ => Err(Conflict::StoredRecordInvalid(e)),
                },
                Ok(found) => if found.role != *role {
                    Err(Conflict::RoleMismatch)
                } else if found.generation != *generation {
                    Err(Conflict::GenerationMismatch { expected: *generation, found: found.generation })
                } else {
                    Ok(())
                },
            },
        },
    }
}

/// A store for session checkpoints. Sealed: implemented only by
/// [`S1CheckpointStore`].
pub trait CheckpointStore: Store {

}

/// The production store: session checkpoints in an [`EncryptedStore`], whose
/// AEAD (with the key name as associated data) gives them confidentiality and
/// integrity. Each write is one `BEGIN IMMEDIATE` transaction that reads the
/// current records, checks every precondition and only then puts the new
/// ones. A failure before the commit rolls the transaction back as it is
/// dropped; any error from the commit itself is reported as an unknown
/// outcome, since it can arrive after the commit point.
pub struct S1CheckpointStore<'a> {
    store: &'a mut EncryptedStore,
    applied: Ghost<Seq<Seq<WriteModel>>>,
    requested: Ghost<Seq<Seq<WriteModel>>>,
    answered: Ghost<Seq<Result<(), WriteFailure>>>,
    read_log: Ghost<Seq<(Seq<u8>, Result<Option<Vec<u8>>, StorageError>)>>,
}

impl<'a> S1CheckpointStore<'a> {
    /// The store whose key material seals the checkpoints.
    pub closed spec fn store_key(&self) -> Seq<u8> {
        self.store@
    }

    /// The statements the underlying store has run.
    pub closed spec fn store_calls(&self) -> Seq<DbCall> {
        self.store.calls()
    }

    pub fn new(store: &'a mut EncryptedStore) -> (s: Self)
        ensures
            s.store_key() == old(store)@,
            s.batches() == Seq::<Seq<WriteModel>>::empty(),
            s.requested() == Seq::<Seq<WriteModel>>::empty(),
            s.answers() == Seq::<Result<(), WriteFailure>>::empty(),
            s.reads() == Seq::<(Seq<u8>, Result<Option<Vec<u8>>, StorageError>)>::empty(),
    {
        S1CheckpointStore {
            store,
            applied: Ghost(Seq::empty()),
            requested: Ghost(Seq::empty()),
            answered: Ghost(Seq::empty()),
            read_log: Ghost(Seq::empty()),
        }
    }

    /// The body of [`Store::write_conditional`], before its answer is
    /// recorded.
    fn write_checked(&mut self, writes: &[Write<'_>]) -> (r: Result<(), WriteFailure>)
        requires
            keys_storable(writes@),
        ensures
            r matches Err(WriteFailure::Conflict { index, conflict }) ==> index < writes@.len()
                && conflict_possible(expect_model(writes@[index as int].expect), conflict),
            r is Ok ==> forall|i: int|
                0 <= i < writes@.len() ==> satisfiable(expect_model((#[trigger] writes@[i]).expect)),
            final(self).requested@ == old(self).requested@.push(batch_model(writes@)),
            final(self).answered@ == old(self).answered@,
            final(self).read_log@ == old(self).read_log@,
            (r is Ok || (r matches Err(WriteFailure::OutcomeUnknown(_)))) ==> final(self).applied@
                == old(self).applied@.push(batch_model(writes@)),
            ((r matches Err(WriteFailure::Conflict { .. })) || (r matches Err(
                WriteFailure::NotCommitted(_),
            ))) ==> final(self).applied@ == old(self).applied@,
    {
        let ghost before = self.applied@;
        proof {
            self.requested@ = self.requested@.push(batch_model(writes@));
        }
        let ghost requested = self.requested@;
        let mut tx = match self.store.transaction() {
            Ok(tx) => tx,
            Err(e) => {
                return Err(WriteFailure::NotCommitted(e));
            },
        };
        // Every precondition is checked before anything is written. On a
        // conflict or any error below, `tx` is dropped and rolled back.
        let mut index: usize = 0;
        while index < writes.len()
            invariant
                index <= writes@.len(),
                self.applied@ == before,
                before == old(self).applied@,
                self.requested@ == requested,
                requested == old(self).requested@.push(batch_model(writes@)),
                self.answered@ == old(self).answered@,
                self.read_log@ == old(self).read_log@,
                tx.puts() == Seq::<(Seq<u8>, Seq<u8>)>::empty(),
                forall|i: int|
                    0 <= i < index ==> satisfiable(expect_model((#[trigger] writes@[i]).expect)),
            decreases writes@.len() - index,
        {
            let w = &writes[index];
            let checked = match tx.get(w.key) {
                Ok(v) => check_precondition(Current::Present(v.as_slice()), &w.expect),
                Err(StorageError::NotFound) => check_precondition(Current::Missing, &w.expect),
                Err(StorageError::Decryption) => check_precondition(Current::Unreadable, &w.expect),
                Err(e) => {
                    return Err(WriteFailure::NotCommitted(e));
                },
            };
            match checked {
                Ok(()) => {},
                Err(conflict) => {
                    return Err(WriteFailure::Conflict { index, conflict });
                },
            }
            index = index + 1;
        }
        let mut j: usize = 0;
        while j < writes.len()
            invariant
                j <= writes@.len(),
                keys_storable(writes@),
                self.applied@ == before,
                before == old(self).applied@,
                self.requested@ == requested,
                requested == old(self).requested@.push(batch_model(writes@)),
                self.answered@ == old(self).answered@,
                self.read_log@ == old(self).read_log@,
                tx.puts() == Seq::new(
                    j as nat,
                    |i: int| (writes@[i].key.spec_bytes(), writes@[i].value@),
                ),
            decreases writes@.len() - j,
        {
            let w = &writes[j];
            assert(w.key.spec_bytes().len() <= aead_max_plaintext());
            match tx.put(w.key, w.value) {
                Ok(()) => {},
                Err(e) => {
                    return Err(WriteFailure::NotCommitted(e));
                },
            }
            j = j + 1;
        }
        // Every write is in the transaction: record the batch as it was put.
        let ghost puts = tx.puts();
        let committed = tx.commit();
        proof {
            let applied = Seq::new(
                writes@.len(),
                |i: int|
                    WriteModel {
                        key: puts[i].0,
                        expect: expect_model(writes@[i].expect),
                        value: puts[i].1,
                    },
            );
            assert(applied =~= batch_model(writes@));
            self.applied@ = before.push(applied);
        }
        match committed {
            Ok(()) => Ok(()),
            Err(e) => Err(WriteFailure::OutcomeUnknown(e)),
        }
    }
}

/// What a user of [`S1CheckpointStore`]s handed to them and what they
/// answered, gathered from each store after its use. Only
/// [`absorb`](Self::absorb) adds to it.
pub struct StoreLog {
    requested: Ghost<Seq<Seq<WriteModel>>>,
    applied: Ghost<Seq<Seq<WriteModel>>>,
    answered: Ghost<Seq<Result<(), WriteFailure>>>,
    read_log: Ghost<Seq<(Seq<u8>, Result<Option<Vec<u8>>, StorageError>)>>,
}

impl StoreLog {
    /// Every batch handed to a store, oldest first.
    pub closed spec fn requested(&self) -> Seq<Seq<WriteModel>> {
        self.requested@
    }

    /// Every batch a store applied or tried to commit, oldest first.
    pub closed spec fn applied(&self) -> Seq<Seq<WriteModel>> {
        self.applied@
    }

    /// What the stores answered, one answer per requested batch.
    pub closed spec fn answers(&self) -> Seq<Result<(), WriteFailure>> {
        self.answered@
    }

    /// Every read and the store's answer, oldest first.
    pub closed spec fn reads(&self) -> Seq<(Seq<u8>, Result<Option<Vec<u8>>, StorageError>)> {
        self.read_log@
    }

    pub fn new() -> (l: Self)
        ensures
            l.requested() == Seq::<Seq<WriteModel>>::empty(),
            l.applied() == Seq::<Seq<WriteModel>>::empty(),
            l.answers() == Seq::<Result<(), WriteFailure>>::empty(),
            l.reads() == Seq::<(Seq<u8>, Result<Option<Vec<u8>>, StorageError>)>::empty(),
    {
        StoreLog {
            requested: Ghost(Seq::empty()),
            applied: Ghost(Seq::empty()),
            answered: Ghost(Seq::empty()),
            read_log: Ghost(Seq::empty()),
        }
    }

    /// Adds what `store` was handed and answered.
    pub fn absorb(&mut self, store: &S1CheckpointStore)
        ensures
            final(self).requested() == old(self).requested() + store.requested(),
            final(self).applied() == old(self).applied() + store.batches(),
            final(self).answers() == old(self).answers() + store.answers(),
            final(self).reads() == old(self).reads() + store.reads(),
    {
        proof {
            self.requested@ = self.requested@ + store.requested();
            self.applied@ = self.applied@ + store.batches();
            self.answered@ = self.answered@ + store.answers();
            self.read_log@ = self.read_log@ + store.reads();
        }
    }
}

impl<'a> Store for S1CheckpointStore<'a> {
    closed spec fn batches(&self) -> Seq<Seq<WriteModel>> {
        self.applied@
    }

    closed spec fn requested(&self) -> Seq<Seq<WriteModel>> {
        self.requested@
    }

    closed spec fn reads(&self) -> Seq<(Seq<u8>, Result<Option<Vec<u8>>, StorageError>)> {
        self.read_log@
    }

    closed spec fn answers(&self) -> Seq<Result<(), WriteFailure>> {
        self.answered@
    }

    fn read(&mut self, key: &str) -> (r: Result<Option<Vec<u8>>, StorageError>)
        ensures
            r matches Ok(Some(v)) ==> stored_value(old(self).store_key(), key.spec_bytes(), v@),
            r matches Err(e) ==> e is Db || e is Decryption,
            final(self).store_key() == old(self).store_key(),
            one_more(old(self).store_calls(), final(self).store_calls()),
            final(self).store_calls().last() matches DbCall::Select { key: k, answer, .. } && k
                == storage_key_spec(old(self).store_key(), key.spec_bytes()) && match answer {
                Err(e) => r matches Err(StorageError::Db(x)) && x == e,
                Ok(None) => r matches Ok(None),
                Ok(Some(row)) => match open_value_spec(old(self).store_key(), key.spec_bytes(), row@) {
                    Some(v) => r matches Ok(Some(x)) && x@ == v,
                    None => r matches Err(StorageError::Decryption),
                },
            },
    {
        let r = match self.store.get(key) {
            Ok(v) => Ok(Some(v)),
            Err(StorageError::NotFound) => Ok(None),
            Err(e) => Err(e),
        };
        proof {
            self.read_log@ = self.read_log@.push((key.spec_bytes(), r));
        }
        r
    }

    fn write_conditional(&mut self, writes: &[Write<'_>]) -> (r: Result<(), WriteFailure>) {
        let r = self.write_checked(writes);
        proof {
            self.answered@ = self.answered@.push(r);
        }
        r
    }
}

impl<'a> CheckpointStore for S1CheckpointStore<'a> {

}

// ── Errors ────────────────────────────────────────────────────────────────────

/// Why creating or loading a durable session failed.
#[derive(Debug)]
pub enum OpenError {
    /// Reading the store failed.
    Store(StorageError),
    /// `create` found a record (valid or not) already stored for this peer
    /// and left it in place.
    AlreadyExists,
    /// The precondition of `side[index]` did not hold; nothing was written.
    SideConflict { index: usize, conflict: Conflict },
    /// A stored record exists but is invalid or bound to other identities,
    /// or the session given to `create` is inconsistent.
    Invalid(SessionCheckpointError),
    /// The initial record was definitely not stored.
    NotCommitted(StorageError),
    /// The initial record may or may not have been stored.
    OutcomeUnknown(StorageError),
    /// The side writes were not usable; nothing was written.
    SideWrite(SideWriteError),
}

/// Why a transition could not be staged. The installed state is unchanged.
#[derive(Debug, Clone, PartialEq, Eq)]
pub enum StageError {
    /// An earlier commit's outcome is unknown.
    Unresolved { attempted_generation: u64 },
    /// An earlier commit found the store no longer holding this instance's
    /// state.
    Conflicted,
    GenerationExhausted,
    Ratchet(RatchetError),
    Checkpoint(SessionCheckpointError),
}

/// Why a staged transition was not installed. In every case its output was
/// discarded.
#[derive(Debug)]
pub enum CommitError {
    /// An earlier commit's outcome is unknown; nothing was written.
    Unresolved { attempted_generation: u64 },
    /// An earlier commit conflicted; nothing was written.
    Conflicted,
    /// The transition was staged from another instance or an older state of
    /// this one; nothing was written.
    StaleTransition,
    /// The stored record is not this instance's predecessor; nothing was
    /// written, and the instance now refuses further transitions.
    Conflict(Conflict),
    /// The session record was the predecessor, but the precondition of
    /// `side[index]` did not hold; nothing was written and the instance stays
    /// usable.
    SideConflict { index: usize, conflict: Conflict },
    /// The store definitely did not keep the record.
    NotCommitted(StorageError),
    /// The store may or may not have kept the record; the instance is now
    /// unresolved.
    OutcomeUnknown(StorageError),
    /// The side writes were not usable; nothing was written.
    SideWrite(SideWriteError),
}

// ── Side writes ───────────────────────────────────────────────────────────────

/// Why a [`SideWrite`] could not be built, or a batch of them used.
#[derive(Debug, Clone, Copy, PartialEq, Eq, Structural)]
pub enum SideWriteError {
    /// The key is in the namespace reserved for session records.
    ReservedKey,
    /// Two writes in one batch name the same key.
    DuplicateKey,
}

/// The namespace of session records, `session:`.
pub open spec fn session_namespace_spec() -> Seq<u8> {
    seq![0x73u8, 0x65u8, 0x73u8, 0x73u8, 0x69u8, 0x6fu8, 0x6eu8, 0x3au8]
}

/// Whether the key name `k` is in the session namespace.
pub open spec fn is_reserved_key(k: Seq<u8>) -> bool {
    k.len() >= 8 && k.subrange(0, 8) == session_namespace_spec()
}

enum SideExpect {
    Absent,
    Exactly(Vec<u8>),
}

/// A record written in the same transaction as a session checkpoint, so that
/// both become durable together or not at all. It cannot touch a session
/// record: a key in the `session:` namespace is refused when it is built.
pub struct SideWrite {
    key: String,
    expect: SideExpect,
    value: Vec<u8>,
}

impl SideWrite {
    #[verifier::type_invariant]
    spec fn inv(self) -> bool {
        &&& !is_reserved_key(encode_utf8(self.key@))
        &&& encode_utf8(self.key@).len() <= aead_max_plaintext()
    }

    /// The key name's bytes.
    pub closed spec fn key_bytes(&self) -> Seq<u8> {
        encode_utf8(self.key@)
    }

    /// What the write requires of the stored record.
    pub closed spec fn expect_spec(&self) -> ExpectModel {
        match self.expect {
            SideExpect::Absent => ExpectModel::Absent,
            SideExpect::Exactly(v) => ExpectModel::Exactly(v@),
        }
    }

    pub closed spec fn value_spec(&self) -> Seq<u8> {
        self.value@
    }

    fn new(key: String, expect: SideExpect, value: Vec<u8>) -> (r: Result<Self, SideWriteError>)
        requires
            encode_utf8(key@).len() <= aead_max_plaintext(),
        ensures
            r is Err <==> is_reserved_key(encode_utf8(key@)),
            r matches Err(e) ==> e == SideWriteError::ReservedKey,
            r matches Ok(w) ==> w.key_bytes() == encode_utf8(key@) && w.value_spec() == value@
                && w.expect_spec() == match expect {
                SideExpect::Absent => ExpectModel::Absent,
                SideExpect::Exactly(v) => ExpectModel::Exactly(v@),
            },
    {
        let ns: [u8; 8] = [0x73, 0x65, 0x73, 0x73, 0x69, 0x6f, 0x6e, 0x3a];
        assert(ns@ =~= session_namespace_spec());
        let kb = key.as_str().as_bytes();
        if kb.len() >= 8 && bytes_eq(&kb[0..8], ns.as_slice()) {
            return Err(SideWriteError::ReservedKey);
        }
        Ok(SideWrite { key, expect, value })
    }

    /// Writes `value` at `key`, which must not exist yet.
    pub fn insert(key: String, value: Vec<u8>) -> (r: Result<Self, SideWriteError>)
        requires
            encode_utf8(key@).len() <= aead_max_plaintext(),
        ensures
            r is Err <==> is_reserved_key(encode_utf8(key@)),
            r matches Err(e) ==> e == SideWriteError::ReservedKey,
            r matches Ok(w) ==> w.key_bytes() == encode_utf8(key@) && w.value_spec() == value@
                && w.expect_spec() == ExpectModel::Absent,
    {
        Self::new(key, SideExpect::Absent, value)
    }

    /// Replaces the record at `key`, which must still be exactly `expected`.
    pub fn replace(key: String, expected: Vec<u8>, value: Vec<u8>) -> (r: Result<Self, SideWriteError>)
        requires
            encode_utf8(key@).len() <= aead_max_plaintext(),
        ensures
            r is Err <==> is_reserved_key(encode_utf8(key@)),
            r matches Err(e) ==> e == SideWriteError::ReservedKey,
            r matches Ok(w) ==> w.key_bytes() == encode_utf8(key@) && w.value_spec() == value@
                && w.expect_spec() == ExpectModel::Exactly(expected@),
    {
        Self::new(key, SideExpect::Exactly(expected), value)
    }

    pub fn key(&self) -> (k: &str)
        ensures
            k.spec_bytes() == self.key_bytes(),
    {
        self.key.as_str()
    }
}

/// The key names of a batch: the session's, then each side write's.
pub open spec fn batch_keys(session_key: Seq<u8>, side: Seq<SideWrite>) -> Seq<Seq<u8>> {
    seq![session_key] + side.map(|i: int, w: SideWrite| w.key_bytes())
}

/// No key name occurs twice.
pub open spec fn keys_distinct(keys: Seq<Seq<u8>>) -> bool {
    forall|p: int, q: int| 0 <= p < q < keys.len() ==> keys[p] != keys[q]
}

/// What a commit returns for the store's answer `a` to its batch, `out`
/// being the staged output: the output only if the batch committed, the
/// session write's conflict as a conflict, a side write's as a side
/// conflict, and the store's error for a batch not committed or of unknown
/// outcome.
pub open spec fn commit_answer<T>(a: Result<(), WriteFailure>, r: Result<T, CommitError>, out: T) -> bool {
    match a {
        Ok(()) => r matches Ok(o) && o == out,
        Err(WriteFailure::Conflict { index, conflict }) => if index == 0 {
            r matches Err(CommitError::Conflict(c)) && c == conflict
        } else {
            r matches Err(CommitError::SideConflict { index: i, conflict: c }) && i == index - 1
                && c == conflict
        },
        Err(WriteFailure::NotCommitted(e)) => r matches Err(CommitError::NotCommitted(x)) && x == e,
        Err(WriteFailure::OutcomeUnknown(e)) => r matches Err(CommitError::OutcomeUnknown(x)) && x
            == e,
    }
}

/// What a creation returns for the store's answer `a` to its batch: the
/// session if the batch committed, `AlreadyExists` if a record was stored
/// for the peer, a side write's conflict as a side conflict, and the
/// store's error for a batch not committed or of unknown outcome.
pub open spec fn create_answer(a: Result<(), WriteFailure>, r: Result<DurableSession, OpenError>) -> bool {
    match a {
        Ok(()) => r is Ok,
        Err(WriteFailure::Conflict { index, conflict }) => if index == 0 {
            r matches Err(OpenError::AlreadyExists)
        } else {
            r matches Err(OpenError::SideConflict { index: i, conflict: c }) && i == index - 1
                && c == conflict
        },
        Err(WriteFailure::NotCommitted(e)) => r matches Err(OpenError::NotCommitted(x)) && x == e,
        Err(WriteFailure::OutcomeUnknown(e)) => r matches Err(OpenError::OutcomeUnknown(x)) && x
            == e,
    }
}

/// What [`DurableSession::from_record`] returns for `record`, the session
/// being bound to `our` and `peer`.
pub open spec fn from_record_result(
    record: Option<Vec<u8>>,
    our: Seq<u8>,
    peer: Seq<u8>,
    r: Result<Option<DurableSession>, OpenError>,
) -> bool {
    match record {
        None => r matches Ok(None),
        Some(rec) => match session_decode_spec(rec@, our, peer) {
            Err(e) => r matches Err(OpenError::Invalid(x)) && x == e,
            Ok(d) => r matches Ok(Some(s)) && s@.ratchet == d.ratchet && s@.ad == d.ad && s@.peer
                == d.peer && s@.role == d.role && s@.generation == d.generation && s@.our == our
                && s@.status == Status::Active && stored_session(rec@, s@),
        },
    }
}

/// What a load returns for the store's answer `a` to its read.
pub open spec fn load_answer(
    a: Result<Option<Vec<u8>>, StorageError>,
    our: Seq<u8>,
    peer: Seq<u8>,
    r: Result<Option<DurableSession>, OpenError>,
) -> bool {
    match a {
        Err(e) => r matches Err(OpenError::Store(x)) && x == e,
        Ok(record) => from_record_result(record, our, peer, r),
    }
}

/// The side writes as plain values.
pub open spec fn side_model(side: Seq<SideWrite>) -> Seq<WriteModel> {
    Seq::new(
        side.len(),
        |i: int|
            WriteModel {
                key: side[i].key_bytes(),
                expect: side[i].expect_spec(),
                value: side[i].value_spec(),
            },
    )
}

/// The batch a commit of `st` onto the session `m` hands to the store: the
/// staged record under the session's key, expecting the session's current
/// record, then the side writes.
pub open spec fn commit_batch(m: DurableModel, st: StagedModel, side: Seq<SideWrite>) -> Seq<
    WriteModel,
> {
    seq![
        WriteModel {
            key: encode_utf8(session_storage_key_spec(m.peer)),
            expect: ExpectModel::Predecessor {
                generation: m.generation,
                role: m.role,
                our: m.our,
                peer: m.peer,
            },
            value: st.record,
        },
    ] + side_model(side)
}

/// The batch creating a session with `peer` hands to the store: the
/// generation-0 `record` under the peer's session key, expecting no record,
/// then the side writes.
pub open spec fn creation_batch(peer: Seq<u8>, record: Seq<u8>, side: Seq<SideWrite>) -> Seq<
    WriteModel,
> {
    seq![
        WriteModel {
            key: encode_utf8(session_storage_key_spec(peer)),
            expect: ExpectModel::Absent,
            value: record,
        },
    ] + side_model(side)
}

/// What [`batch`] builds is the session write followed by the side writes.
proof fn lemma_batch_model(session: Write, side: Seq<SideWrite>, ws: Seq<Write>)
    requires
        ws.len() == side.len() + 1,
        ws[0] == session,
        forall|i: int|
            0 <= i < side.len() ==> (#[trigger] ws[i + 1]).key.spec_bytes() == side[i].key_bytes()
                && expect_model(ws[i + 1].expect) == side[i].expect_spec() && ws[i + 1].value@
                == side[i].value_spec(),
    ensures
        batch_model(ws) == seq![write_model(session)] + side_model(side),
{
    let a = batch_model(ws);
    let b = seq![write_model(session)] + side_model(side);
    assert forall|i: int| 0 <= i < a.len() implies a[i] == b[i] by {
        if i > 0 {
            assert(ws[(i - 1) + 1] == ws[i]);
        }
    }
    assert(a =~= b);
}

/// The session write followed by the side writes, refusing a batch that
/// names one key twice.
fn batch<'a>(session: Write<'a>, side: &'a [SideWrite]) -> (r: Result<Vec<Write<'a>>, SideWriteError>)
    requires
        session.key.spec_bytes().len() <= aead_max_plaintext(),
    ensures
        r is Err <==> !keys_distinct(batch_keys(session.key.spec_bytes(), side@)),
        r matches Err(e) ==> e == SideWriteError::DuplicateKey,
        r matches Ok(ws) ==> {
            &&& ws@.len() == side@.len() + 1
            &&& ws@[0] == session
            &&& keys_storable(ws@)
            &&& forall|i: int|
                0 <= i < side@.len() ==> (#[trigger] ws@[i + 1]).key.spec_bytes()
                    == side@[i].key_bytes() && expect_model(ws@[i + 1].expect)
                    == side@[i].expect_spec() && ws@[i + 1].value@ == side@[i].value_spec()
        },
{
    let ghost keys = batch_keys(session.key.spec_bytes(), side@);
    assert(keys.len() == side@.len() + 1);
    let mut writes: Vec<Write<'a>> = Vec::new();
    writes.push(session);
    let mut i: usize = 0;
    while i < side.len()
        invariant
            i <= side@.len(),
            keys == batch_keys(session.key.spec_bytes(), side@),
            keys.len() == side@.len() + 1,
            writes@.len() == i + 1,
            writes@[0] == session,
            forall|p: int| 0 <= p <= i ==> (#[trigger] writes@[p]).key.spec_bytes() == keys[p],
            forall|p: int, q: int| 0 <= p < q <= i ==> keys[p] != keys[q],
            keys_storable(writes@),
            forall|p: int|
                0 <= p < i ==> expect_model((#[trigger] writes@[p + 1]).expect)
                    == side@[p].expect_spec() && writes@[p + 1].value@ == side@[p].value_spec(),
        decreases side@.len() - i,
    {
        let w = &side[i];
        proof {
            use_type_invariant(w);
        }
        let kb = w.key.as_str().as_bytes();
        let mut j: usize = 0;
        while j < writes.len()
            invariant
                j <= writes@.len(),
                i < side@.len(),
                keys == batch_keys(session.key.spec_bytes(), side@),
                keys.len() == side@.len() + 1,
                writes@.len() == i + 1,
                kb@ == keys[i + 1],
                forall|p: int| 0 <= p <= i ==> (#[trigger] writes@[p]).key.spec_bytes() == keys[p],
                forall|p: int| 0 <= p < j ==> #[trigger] keys[p] != keys[i + 1],
            decreases writes@.len() - j,
        {
            if bytes_eq(writes[j].key.as_bytes(), kb) {
                assert(keys[j as int] == keys[i + 1]);
                assert(keys.len() == side@.len() + 1);
                assert(0 <= j < i + 1 < keys.len());
                assert(!keys_distinct(keys));
                return Err(SideWriteError::DuplicateKey);
            }
            j = j + 1;
        }
        let expect = match &w.expect {
            SideExpect::Absent => Expect::Absent,
            SideExpect::Exactly(v) => Expect::Exactly(v.as_slice()),
        };
        writes.push(Write { key: w.key.as_str(), expect, value: w.value.as_slice() });
        i = i + 1;
    }
    Ok(writes)
}

// ── Durable sessions ──────────────────────────────────────────────────────────

/// Whether an instance still accepts transitions.
#[derive(Debug, Clone, Copy, PartialEq, Eq, Structural)]
pub enum Status {
    Active,
    /// A commit's outcome is unknown.
    Unresolved { attempted_generation: u64 },
    /// A commit found the store no longer holding this instance's state.
    Conflicted,
}

/// The state of a [`DurableSession`].
pub struct DurableModel {
    pub ratchet: RatchetState,
    pub ad: Seq<u8>,
    pub peer: Seq<u8>,
    pub role: SessionRole,
    pub our: Seq<u8>,
    pub generation: u64,
    pub status: Status,
    pub instance: u64,
}

/// A session whose ratchet only advances through conditionally committed
/// checkpoints. The ratchet is never handed out, so the only way to advance
/// it is a staged transition.
pub struct DurableSession {
    session: Session,
    role: SessionRole,
    our_identity_pk: [u8; 32],
    key: String,
    generation: u64,
    status: Status,
    instance: u64,
}

/// A prepared transition: the advanced ratchet, the record describing it,
/// and the output released only by a successful
/// [`commit`](DurableSession::commit). Dropping it abandons the transition.
pub struct StagedTransition<T> {
    ratchet: DoubleRatchet,
    record: Vec<u8>,
    output: T,
    generation: u64,
    base_generation: u64,
    instance: u64,
}

/// The state of a [`StagedTransition`] besides its output.
pub struct StagedModel {
    pub ratchet: RatchetState,
    pub record: Seq<u8>,
    pub generation: u64,
    pub base_generation: u64,
    pub instance: u64,
}

impl<T> View for StagedTransition<T> {
    type V = StagedModel;

    closed spec fn view(&self) -> StagedModel {
        StagedModel {
            ratchet: self.ratchet@,
            record: self.record@,
            generation: self.generation,
            base_generation: self.base_generation,
            instance: self.instance,
        }
    }
}

impl<T> StagedTransition<T> {
    #[verifier::type_invariant]
    spec fn inv(self) -> bool {
        self.ratchet.wf() && encode_error(self.ratchet@) is None
    }

    /// The withheld output.
    pub closed spec fn output_spec(&self) -> T {
        self.output
    }

    /// The generation this transition would commit.
    pub fn generation(&self) -> (g: u64)
        ensures
            g == self@.generation,
    {
        self.generation
    }

    /// The session record this transition would store.
    pub fn record(&self) -> (r: &[u8])
        ensures
            r@ == self@.record,
    {
        self.record.as_slice()
    }

    /// The withheld output, so that a record derived from it (an outbox or
    /// inbox entry) can be written in the same transaction as the checkpoint.
    pub fn output(&self) -> (o: &T)
        ensures
            *o == self.output_spec(),
    {
        &self.output
    }
}

impl View for DurableSession {
    type V = DurableModel;

    closed spec fn view(&self) -> DurableModel {
        DurableModel {
            ratchet: self.session.ratchet@,
            ad: self.session.ad@,
            peer: self.session.peer_identity_pk@,
            role: self.role,
            our: self.our_identity_pk@,
            generation: self.generation,
            status: self.status,
            instance: self.instance,
        }
    }
}

/// `rec` is a stored record of the session `m` describes: decoded for `m`'s
/// identities it gives `m`'s role, generation, associated data and ratchet
/// state.
#[verifier::opaque]
pub open spec fn stored_session(rec: Seq<u8>, m: DurableModel) -> bool {
    session_decode_spec(rec, m.our, m.peer) matches Ok(d) && d.ratchet == m.ratchet && d.ad == m.ad
        && d.generation == m.generation && d.role == m.role && d.peer == m.peer
}

/// The record a transition to `v` at generation `g` writes.
pub open spec fn staged_record(m: DurableModel, v: RatchetState, g: u64) -> Seq<u8> {
    session_record_spec(m.role, g, m.our, m.peer, m.ad, record_spec(v))
}

/// What staging refuses before touching the ratchet, if anything.
pub open spec fn stage_gate(m: DurableModel) -> Option<StageError> {
    match m.status {
        Status::Unresolved { attempted_generation } => Some(
            StageError::Unresolved { attempted_generation },
        ),
        Status::Conflicted => Some(StageError::Conflicted),
        Status::Active => if m.generation == u64::MAX {
            Some(StageError::GenerationExhausted)
        } else {
            None
        },
    }
}

/// `st` is the staged transition of `m` to the ratchet state `v`.
pub open spec fn staged_from(m: DurableModel, st: StagedModel, v: RatchetState) -> bool {
    &&& st.ratchet == v
    &&& st.generation == m.generation + 1
    &&& st.base_generation == m.generation
    &&& st.instance == m.instance
    &&& st.record == staged_record(m, v, (m.generation + 1) as u64)
}

/// `m` with another ratchet state and generation.
pub open spec fn advanced(m: DurableModel, v: RatchetState, g: u64) -> DurableModel {
    DurableModel { ratchet: v, generation: g, ..m }
}

/// `m` with another status.
pub open spec fn with_status(m: DurableModel, s: Status) -> DurableModel {
    DurableModel { status: s, ..m }
}

/// What commit refuses before asking the store, if anything.
pub open spec fn commit_gate(m: DurableModel, st: StagedModel) -> Option<CommitError> {
    match m.status {
        Status::Unresolved { attempted_generation } => Some(
            CommitError::Unresolved { attempted_generation },
        ),
        Status::Conflicted => Some(CommitError::Conflicted),
        Status::Active => if st.instance != m.instance || st.base_generation != m.generation {
            Some(CommitError::StaleTransition)
        } else {
            None
        },
    }
}

/// A fresh instance identifier, drawn from the operating system's randomness
/// so that transitions staged by one instance are not accepted by another.
fn fresh_instance() -> (id: u64) {
    let mut b = [0u8; 8];
    fill_random(vstd::array::ref_mut_array_unsizing_coercion(&mut b));
    u64_from_le(&b)
}

impl DurableSession {
    #[verifier::type_invariant]
    spec fn inv(self) -> bool {
        &&& self.session.ratchet.wf()
        &&& encode_error(self.session.ratchet@) is None
        &&& self.session.ad@ == expected_ad_spec(
            self.role,
            self.our_identity_pk@,
            self.session.peer_identity_pk@,
        )
        &&& self.key@ == session_storage_key_spec(self.session.peer_identity_pk@)
    }

    fn new(session: Session, role: SessionRole, our_identity_pk: [u8; 32], generation: u64) -> (s: Self)
        requires
            session.ratchet.wf(),
            encode_error(session.ratchet@) is None,
            session.ad@ == expected_ad_spec(role, our_identity_pk@, session.peer_identity_pk@),
        ensures
            s@.ratchet == session.ratchet@,
            s@.ad == session.ad@,
            s@.peer == session.peer_identity_pk@,
            s@.role == role,
            s@.our == our_identity_pk@,
            s@.generation == generation,
            s@.status == Status::Active,
    {
        let key = session_storage_key(&session.peer_identity_pk);
        DurableSession {
            session,
            role,
            our_identity_pk,
            key,
            generation,
            status: Status::Active,
            instance: fresh_instance(),
        }
    }

    /// Stores a newly established session as generation 0, only if no record
    /// (valid or not) exists for this peer; the check and the insert are one
    /// store transaction.
    pub fn create<S: CheckpointStore>(
        store: &mut S,
        session: Session,
        role: SessionRole,
        our_identity_pk: [u8; 32],
    ) -> (r: Result<Self, OpenError>)
        requires
            session.ratchet.wf(),
        ensures
            match session_encode_spec(
                session.ratchet@,
                session.ad@,
                session.peer_identity_pk@,
                role,
                our_identity_pk@,
                0,
            ) {
                Err(e) => r matches Err(OpenError::Invalid(x)) && x == e,
                Ok(_) => !(r matches Err(OpenError::Invalid(_))),
            },
            r matches Ok(s) ==> s@.ratchet == session.ratchet@ && s@.ad == session.ad@ && s@.peer
                == session.peer_identity_pk@ && s@.role == role && s@.our == our_identity_pk@
                && s@.generation == 0 && s@.status == Status::Active,
            !(r matches Err(OpenError::SideWrite(_))),
            !(r matches Err(OpenError::SideConflict { .. })),
            !(r matches Err(OpenError::Store(_))),
            (r is Ok || (r matches Err(OpenError::OutcomeUnknown(_)))) ==> (session_encode_spec(
                session.ratchet@,
                session.ad@,
                session.peer_identity_pk@,
                role,
                our_identity_pk@,
                0,
            ) matches Ok(rec) && final(store).batches() == old(store).batches().push(
                creation_batch(session.peer_identity_pk@, rec, Seq::empty()),
            )),
            !(r is Ok || (r matches Err(OpenError::OutcomeUnknown(_)))) ==> final(store).batches()
                == old(store).batches(),
            session_encode_spec(
                session.ratchet@,
                session.ad@,
                session.peer_identity_pk@,
                role,
                our_identity_pk@,
                0,
            ) matches Ok(rec) ==> final(store).requested() == old(store).requested().push(
                creation_batch(session.peer_identity_pk@, rec, Seq::empty()),
            ),
            session_encode_spec(
                session.ratchet@,
                session.ad@,
                session.peer_identity_pk@,
                role,
                our_identity_pk@,
                0,
            ) is Err ==> final(store).requested() == old(store).requested(),
            session_encode_spec(
                session.ratchet@,
                session.ad@,
                session.peer_identity_pk@,
                role,
                our_identity_pk@,
                0,
            ) is Ok ==> one_more(old(store).answers(), final(store).answers())
                && create_answer(final(store).answers().last(), r),
            session_encode_spec(
                session.ratchet@,
                session.ad@,
                session.peer_identity_pk@,
                role,
                our_identity_pk@,
                0,
            ) is Err ==> final(store).answers() == old(store).answers(),
            final(store).reads() == old(store).reads(),
    {
        let none: [SideWrite; 0] = [];
        Self::create_with(store, session, role, our_identity_pk, none.as_slice())
    }

    /// [`create`](Self::create), writing `side` in the same transaction. If
    /// any precondition fails, the session's or a side write's, nothing is
    /// written.
    pub fn create_with<S: CheckpointStore>(
        store: &mut S,
        session: Session,
        role: SessionRole,
        our_identity_pk: [u8; 32],
        side: &[SideWrite],
    ) -> (r: Result<Self, OpenError>)
        requires
            session.ratchet.wf(),
        ensures
            match session_encode_spec(
                session.ratchet@,
                session.ad@,
                session.peer_identity_pk@,
                role,
                our_identity_pk@,
                0,
            ) {
                Err(e) => r matches Err(OpenError::Invalid(x)) && x == e,
                Ok(_) => {
                    &&& !(r matches Err(OpenError::Invalid(_)))
                    &&& (r matches Err(OpenError::SideWrite(e)) <==> !keys_distinct(
                        batch_keys(
                            encode_utf8(session_storage_key_spec(session.peer_identity_pk@)),
                            side@,
                        ),
                    ))
                },
            },
            r matches Err(OpenError::SideWrite(e)) ==> e == SideWriteError::DuplicateKey,
            r matches Ok(s) ==> s@.ratchet == session.ratchet@ && s@.ad == session.ad@ && s@.peer
                == session.peer_identity_pk@ && s@.role == role && s@.our == our_identity_pk@
                && s@.generation == 0 && s@.status == Status::Active,
            r matches Err(OpenError::SideConflict { index, conflict }) ==> index < side@.len()
                && conflict_possible(side@[index as int].expect_spec(), conflict),
            !(r matches Err(OpenError::Store(_))),
            (r is Ok || (r matches Err(OpenError::OutcomeUnknown(_)))) ==> (session_encode_spec(
                session.ratchet@,
                session.ad@,
                session.peer_identity_pk@,
                role,
                our_identity_pk@,
                0,
            ) matches Ok(rec) && final(store).batches() == old(store).batches().push(
                creation_batch(session.peer_identity_pk@, rec, side@),
            )),
            !(r is Ok || (r matches Err(OpenError::OutcomeUnknown(_)))) ==> final(store).batches()
                == old(store).batches(),
            session_encode_spec(
                session.ratchet@,
                session.ad@,
                session.peer_identity_pk@,
                role,
                our_identity_pk@,
                0,
            ) matches Ok(rec) ==> ((r matches Err(OpenError::SideWrite(_))) || final(store).requested()
                == old(store).requested().push(
                creation_batch(session.peer_identity_pk@, rec, side@),
            )),
            session_encode_spec(
                session.ratchet@,
                session.ad@,
                session.peer_identity_pk@,
                role,
                our_identity_pk@,
                0,
            ) is Err || (r matches Err(OpenError::SideWrite(_))) ==> final(store).requested()
                == old(store).requested(),
            session_encode_spec(
                session.ratchet@,
                session.ad@,
                session.peer_identity_pk@,
                role,
                our_identity_pk@,
                0,
            ) is Ok && !(r matches Err(OpenError::SideWrite(_))) ==> one_more(
                old(store).answers(),
                final(store).answers(),
            ) && create_answer(final(store).answers().last(), r),
            session_encode_spec(
                session.ratchet@,
                session.ad@,
                session.peer_identity_pk@,
                role,
                our_identity_pk@,
                0,
            ) is Err || (r matches Err(OpenError::SideWrite(_))) ==> final(store).answers()
                == old(store).answers(),
            final(store).reads() == old(store).reads(),
    {
        let record = match encode_session_checkpoint(&session, role, &our_identity_pk, 0) {
            Ok(rec) => rec,
            Err(e) => {
                return Err(OpenError::Invalid(e));
            },
        };
        proof {
            lemma_storage_key_len(session.peer_identity_pk@);
        }
        let this = Self::new(session, role, our_identity_pk, 0);
        proof {
            use_type_invariant(&this);
        }
        let result = {
            let writes = match batch(
                Write { key: this.key.as_str(), expect: Expect::Absent, value: record.as_slice() },
                side,
            ) {
                Ok(w) => w,
                Err(e) => {
                    return Err(OpenError::SideWrite(e));
                },
            };
            let r = store.write_conditional(writes.as_slice());
            proof {
                lemma_one_more(old(store).answers(), r);
                match r {
                    Err(WriteFailure::Conflict { index, .. }) => {
                        if index > 0 {
                            assert(writes@[(index - 1) + 1] == writes@[index as int]);
                        }
                    },
                    _ => {},
                }
                lemma_batch_model(writes@[0], side@, writes@);
            }
            r
        };
        match result {
            Ok(()) => Ok(this),
            Err(WriteFailure::Conflict { index, conflict }) => {
                if index == 0 {
                    Err(OpenError::AlreadyExists)
                } else {
                    Err(OpenError::SideConflict { index: index - 1, conflict })
                }
            },
            Err(WriteFailure::NotCommitted(e)) => Err(OpenError::NotCommitted(e)),
            Err(WriteFailure::OutcomeUnknown(e)) => Err(OpenError::OutcomeUnknown(e)),
        }
    }

    /// Loads the stored session for `binding`. `Ok(None)` means no record
    /// exists; a record that exists but is malformed, unsupported or bound to
    /// other identities is an error, never treated as missing.
    pub fn load<S: CheckpointStore>(store: &mut S, binding: &SessionBinding) -> (r: Result<
        Option<Self>,
        OpenError,
    >)
        ensures
            r matches Ok(Some(s)) ==> exists|rec: Seq<u8>|
                #[trigger] session_decode_spec(
                    rec,
                    binding.our_identity_pk@,
                    binding.peer_identity_pk@,
                ) matches Ok(d) && s@.ratchet == d.ratchet && s@.ad == d.ad && s@.peer == d.peer
                    && s@.role == d.role && s@.generation == d.generation,
            r matches Ok(Some(s)) ==> s@.our == binding.our_identity_pk@ && s@.peer
                == binding.peer_identity_pk@ && s@.status == Status::Active,
            r matches Ok(Some(s)) ==> exists|rec: Seq<u8>| #[trigger] stored_session(rec, s@),
            r matches Err(OpenError::Invalid(e)) ==> exists|rec: Seq<u8>|
                #[trigger] session_decode_spec(
                    rec,
                    binding.our_identity_pk@,
                    binding.peer_identity_pk@,
                ) == Err::<crate::session_checkpoint::DecodedSession, SessionCheckpointError>(e),
            r matches Err(e) ==> e is Store || e is Invalid,
            one_more(old(store).reads(), final(store).reads()),
            final(store).reads().last().0 == encode_utf8(
                session_storage_key_spec(binding.peer_identity_pk@),
            ),
            load_answer(
                final(store).reads().last().1,
                binding.our_identity_pk@,
                binding.peer_identity_pk@,
                r,
            ),
            final(store).batches() == old(store).batches(),
            final(store).requested() == old(store).requested(),
            final(store).answers() == old(store).answers(),
    {
        let key = session_storage_key(&binding.peer_identity_pk);
        let k = key.as_str();
        let answer = store.read(k);
        proof {
            lemma_one_more(old(store).reads(), (k.spec_bytes(), answer));
        }
        match answer {
            Err(e) => Err(OpenError::Store(e)),
            Ok(record) => Self::from_record(record, binding),
        }
    }

    /// What [`load`](Self::load) makes of what the store read for the
    /// session's key: no session for no record, the session a record
    /// decodes to, or the decoding error.
    pub fn from_record(record: Option<Vec<u8>>, binding: &SessionBinding) -> (r: Result<
        Option<Self>,
        OpenError,
    >)
        ensures
            from_record_result(record, binding.our_identity_pk@, binding.peer_identity_pk@, r),
    {
        let record = match record {
            None => {
                return Ok(None);
            },
            Some(rec) => rec,
        };
        match decode_session_checkpoint(record.as_slice(), binding) {
            Err(e) => Err(OpenError::Invalid(e)),
            Ok(restored) => {
                proof {
                    lemma_session_record_is_canonical(
                        record@,
                        binding.our_identity_pk@,
                        binding.peer_identity_pk@,
                    );
                }
                let s = Self::new(
                    restored.session,
                    restored.role,
                    binding.our_identity_pk,
                    restored.generation,
                );
                proof {
                    reveal(stored_session);
                    assert(stored_session(record@, s@));
                }
                Ok(Some(s))
            },
        }
    }

    pub fn role(&self) -> (r: SessionRole)
        ensures
            r == self@.role,
    {
        self.role
    }

    pub fn generation(&self) -> (g: u64)
        ensures
            g == self@.generation,
    {
        self.generation
    }

    /// The storage key of this session's record.
    pub fn key(&self) -> (k: &str)
        ensures
            k@ == session_storage_key_spec(self@.peer),
    {
        proof {
            use_type_invariant(self);
        }
        self.key.as_str()
    }

    /// The installed ratchet state, encoded as a `RATCHET_STATE_V1` record.
    pub fn installed_checkpoint(&self) -> (r: Vec<u8>)
        ensures
            r@ == record_spec(self@.ratchet),
    {
        proof {
            use_type_invariant(self);
        }
        match self.session.ratchet.to_checkpoint() {
            Ok(v) => v,
            Err(_) => {
                proof {
                    assert(false);
                }
                Vec::new()
            },
        }
    }

    pub fn our_identity_pk(&self) -> (k: [u8; 32])
        ensures
            k@ == self@.our,
    {
        self.our_identity_pk
    }

    pub fn peer_identity_pk(&self) -> (k: [u8; 32])
        ensures
            k@ == self@.peer,
    {
        self.session.peer_identity_pk
    }

    /// `Some(generation)` of the write whose outcome is unknown.
    pub fn unresolved_generation(&self) -> (r: Option<u64>)
        ensures
            r == match self@.status {
                Status::Unresolved { attempted_generation } => Some(attempted_generation),
                _ => None::<u64>,
            },
    {
        match self.status {
            Status::Unresolved { attempted_generation } => Some(attempted_generation),
            _ => None,
        }
    }

    /// Whether a commit found the store no longer holding this instance's
    /// state.
    pub fn is_conflicted(&self) -> (b: bool)
        ensures
            b == (self@.status == Status::Conflicted),
    {
        match self.status {
            Status::Conflicted => true,
            _ => false,
        }
    }

    /// Whether the session has received a message from the peer: its
    /// receiving chain exists.
    pub fn has_received(&self) -> (b: bool)
        ensures
            b == self@.ratchet.ckr is Some,
    {
        self.session.ratchet.has_receiving_chain()
    }

    /// Whether `record` is exactly this instance's current record.
    pub fn holds_record(&self, record: &[u8]) -> (b: bool)
        ensures
            b == (record@ == staged_record(self@, self@.ratchet, self@.generation)),
    {
        proof {
            use_type_invariant(self);
        }
        match encode_parts(
            &self.session.ratchet,
            self.session.ad.as_slice(),
            &self.session.peer_identity_pk,
            self.role,
            &self.our_identity_pk,
            self.generation,
        ) {
            Ok(mine) => bytes_eq(mine.as_slice(), record),
            Err(_) => false,
        }
    }

    fn gate(&self) -> (r: Result<u64, StageError>)
        ensures
            match stage_gate(self@) {
                Some(e) => r matches Err(x) && x == e,
                None => r matches Ok(g) && g == self@.generation + 1,
            },
    {
        match self.status {
            Status::Active => {},
            Status::Unresolved { attempted_generation } => {
                return Err(StageError::Unresolved { attempted_generation });
            },
            Status::Conflicted => {
                return Err(StageError::Conflicted);
            },
        }
        if self.generation == u64::MAX {
            return Err(StageError::GenerationExhausted);
        }
        Ok(self.generation + 1)
    }

    fn finish_stage<T>(&self, ratchet: DoubleRatchet, output: T, generation: u64) -> (r: Result<
        StagedTransition<T>,
        StageError,
    >)
        requires
            ratchet.wf(),
            generation == self@.generation + 1,
        ensures
            match encode_error(ratchet@) {
                Some(e) => r matches Err(x) && x == StageError::Checkpoint(
                    SessionCheckpointError::Ratchet(e),
                ),
                None => r matches Ok(st) && staged_from(self@, st@, ratchet@) && st.output_spec()
                    == output,
            },
    {
        proof {
            use_type_invariant(self);
        }
        let record = match encode_parts(
            &ratchet,
            self.session.ad.as_slice(),
            &self.session.peer_identity_pk,
            self.role,
            &self.our_identity_pk,
            generation,
        ) {
            Ok(rec) => rec,
            Err(e) => {
                return Err(StageError::Checkpoint(e));
            },
        };
        Ok(
            StagedTransition {
                ratchet,
                record,
                output,
                generation,
                base_generation: self.generation,
                instance: self.instance,
            },
        )
    }

    /// Stages encrypting `plaintext`; commit returns `(header, ciphertext)`.
    pub fn stage_encrypt(&self, plaintext: &[u8]) -> (r: Result<
        StagedTransition<(Header, Vec<u8>)>,
        StageError,
    >)
        ensures
            match stage_gate(self@) {
                Some(e) => r matches Err(x) && x == e,
                None => match self@.ratchet.cks {
                    None => r matches Err(x) && x == StageError::Ratchet(
                        RatchetError::NotInitialized,
                    ),
                    Some(ck) => if plaintext@.len() > aead_max_plaintext() {
                        r matches Err(x) && x == StageError::Ratchet(RatchetError::Decryption)
                    } else {
                        let v = RatchetState {
                            cks: Some(chain_next(ck)),
                            ns: (self@.ratchet.ns + 1) as u32,
                            ..self@.ratchet
                        };
                        match encode_error(v) {
                            Some(e) => r matches Err(x) && x == StageError::Checkpoint(
                                SessionCheckpointError::Ratchet(e),
                            ),
                            None => r matches Ok(st) && staged_from(self@, st@, v) && ({
                                let (h, ct) = st.output_spec();
                                &&& h.dh@ == x25519_public_spec(self@.ratchet.dhs)
                                &&& h.pn == self@.ratchet.pn
                                &&& h.n == self@.ratchet.ns
                                &&& sealed_under(
                                    message_key(ck),
                                    ct@,
                                    plaintext@,
                                    self@.ad + header_bytes(h),
                                )
                                &&& ct@.len() == 24 + plaintext@.len() + 16
                            }),
                        }
                    },
                },
            },
    {
        proof {
            use_type_invariant(self);
        }
        let generation = self.gate()?;
        let mut ratchet = self.session.ratchet.staged_copy();
        let output = match ratchet.encrypt(plaintext, self.session.ad.as_slice()) {
            Ok(o) => o,
            Err(e) => {
                return Err(StageError::Ratchet(e));
            },
        };
        self.finish_stage(ratchet, output, generation)
    }

    /// Stages decrypting a message; commit returns the plaintext. A message
    /// that does not decrypt stages nothing.
    pub fn stage_decrypt(&self, header: &Header, ciphertext: &[u8]) -> (r: Result<
        StagedTransition<Vec<u8>>,
        StageError,
    >)
        ensures
            match stage_gate(self@) {
                Some(e) => r matches Err(x) && x == e,
                None => {
                    let outcome = receive_spec(
                        self@.ratchet,
                        *header,
                        ciphertext@,
                        self@.ad,
                        self@.ratchet.dhs,
                    ).1;
                    &&& outcome matches Err(e) ==> r matches Err(x) && x == StageError::Ratchet(e)
                    &&& r matches Ok(st) ==> {
                        let expected = receive_spec(
                            self@.ratchet,
                            *header,
                            ciphertext@,
                            self@.ad,
                            st@.ratchet.dhs,
                        );
                        &&& expected.1 == Ok::<Seq<u8>, RatchetError>(st.output_spec()@)
                        &&& staged_from(self@, st@, expected.0)
                    }
                    &&& r matches Err(x) ==> (outcome matches Err(e) && x == StageError::Ratchet(
                        e,
                    )) || (x matches StageError::Checkpoint(SessionCheckpointError::Ratchet(e))
                        && outcome is Ok)
                    &&& outcome is Ok ==> match encode_error(
                        receive_spec(
                            self@.ratchet,
                            *header,
                            ciphertext@,
                            self@.ad,
                            self@.ratchet.dhs,
                        ).0,
                    ) {
                        Some(e) => r matches Err(x) && x == StageError::Checkpoint(
                            SessionCheckpointError::Ratchet(e),
                        ),
                        None => r is Ok,
                    }
                },
            },
    {
        proof {
            use_type_invariant(self);
        }
        let generation = self.gate()?;
        let mut ratchet = self.session.ratchet.staged_copy();
        let output = ratchet.decrypt(header, ciphertext, self.session.ad.as_slice());
        proof {
            crate::ratchet::lemma_receive_result_independent(
                self@.ratchet,
                *header,
                ciphertext@,
                self@.ad,
                self@.ratchet.dhs,
                ratchet@.dhs,
            );
        }
        let output = match output {
            Ok(o) => o,
            Err(e) => {
                return Err(StageError::Ratchet(e));
            },
        };
        self.finish_stage(ratchet, output, generation)
    }

    /// Writes the staged record if the store still holds this instance's
    /// current record and, only if the store reports the write committed,
    /// installs the staged ratchet and returns the output. Nothing is
    /// retried.
    pub fn commit<S: CheckpointStore, T>(&mut self, store: &mut S, staged: StagedTransition<T>) -> (r:
        Result<T, CommitError>)
        ensures
            match commit_gate(old(self)@, staged@) {
                Some(e) => final(self)@ == old(self)@ && (r matches Err(x) && x == e),
                None => {
                    &&& r matches Ok(o) ==> o == staged.output_spec() && final(self)@ == advanced(
                        old(self)@,
                        staged@.ratchet,
                        staged@.generation,
                    )
                    &&& r matches Err(CommitError::Conflict(c)) ==> final(self)@ == with_status(
                        old(self)@,
                        Status::Conflicted,
                    )
                    &&& r matches Err(CommitError::OutcomeUnknown(_)) ==> final(self)@
                        == with_status(
                        old(self)@,
                        Status::Unresolved { attempted_generation: staged@.generation },
                    )
                    &&& r matches Err(CommitError::NotCommitted(_)) ==> final(self)@ == old(self)@
                    &&& !(r matches Err(CommitError::SideConflict { .. }))
                    &&& !(r matches Err(CommitError::SideWrite(_)))
                    &&& !(r matches Err(CommitError::Unresolved { .. }))
                    &&& !(r matches Err(CommitError::Conflicted))
                    &&& !(r matches Err(CommitError::StaleTransition))
                },
            },
            (r is Ok || (r matches Err(CommitError::OutcomeUnknown(_)))) ==> final(store).batches()
                == old(store).batches().push(commit_batch(old(self)@, staged@, Seq::empty())),
            !(r is Ok || (r matches Err(CommitError::OutcomeUnknown(_)))) ==> final(store).batches()
                == old(store).batches(),
            commit_gate(old(self)@, staged@) is None ==> final(store).requested() == old(store).requested().push(commit_batch(old(self)@, staged@, Seq::empty())),
            commit_gate(old(self)@, staged@) is Some ==> final(store).requested() == old(store).requested(),
            commit_gate(old(self)@, staged@) is None ==> one_more(
                old(store).answers(),
                final(store).answers(),
            ) && commit_answer(final(store).answers().last(), r, staged.output_spec()),
            commit_gate(old(self)@, staged@) is Some ==> final(store).answers() == old(store).answers(),
            final(store).reads() == old(store).reads(),
    {
        let none: [SideWrite; 0] = [];
        self.commit_with(store, staged, none.as_slice())
    }

    /// [`commit`](Self::commit), writing `side` in the same transaction as
    /// the checkpoint. The output is released only if every write committed.
    pub fn commit_with<S: CheckpointStore, T>(
        &mut self,
        store: &mut S,
        staged: StagedTransition<T>,
        side: &[SideWrite],
    ) -> (r: Result<T, CommitError>)
        ensures
            match commit_gate(old(self)@, staged@) {
                Some(e) => final(self)@ == old(self)@ && (r matches Err(x) && x == e),
                None => {
                    &&& (r matches Err(CommitError::SideWrite(e)) <==> !keys_distinct(
                        batch_keys(
                            encode_utf8(session_storage_key_spec(old(self)@.peer)),
                            side@,
                        ),
                    ))
                    &&& r matches Err(CommitError::SideWrite(e)) ==> e
                        == SideWriteError::DuplicateKey && final(self)@ == old(self)@
                    &&& r matches Ok(o) ==> o == staged.output_spec() && final(self)@ == advanced(
                        old(self)@,
                        staged@.ratchet,
                        staged@.generation,
                    )
                    &&& r matches Err(CommitError::Conflict(c)) ==> final(self)@ == with_status(
                        old(self)@,
                        Status::Conflicted,
                    ) && conflict_possible(
                        ExpectModel::Predecessor {
                            generation: old(self)@.generation,
                            role: old(self)@.role,
                            our: old(self)@.our,
                            peer: old(self)@.peer,
                        },
                        c,
                    )
                    &&& r matches Err(CommitError::SideConflict { index, conflict }) ==> final(self)@ == old(self)@ && index < side@.len() && conflict_possible(
                        side@[index as int].expect_spec(),
                        conflict,
                    )
                    &&& r matches Err(CommitError::NotCommitted(_)) ==> final(self)@ == old(self)@
                    &&& r matches Err(CommitError::OutcomeUnknown(_)) ==> final(self)@
                        == with_status(
                        old(self)@,
                        Status::Unresolved { attempted_generation: staged@.generation },
                    )
                    &&& !(r matches Err(CommitError::Unresolved { .. }))
                    &&& !(r matches Err(CommitError::Conflicted))
                    &&& !(r matches Err(CommitError::StaleTransition))
                },
            },
            (r is Ok || (r matches Err(CommitError::OutcomeUnknown(_)))) ==> final(store).batches()
                == old(store).batches().push(commit_batch(old(self)@, staged@, side@)),
            !(r is Ok || (r matches Err(CommitError::OutcomeUnknown(_)))) ==> final(store).batches()
                == old(store).batches(),
            commit_gate(old(self)@, staged@) is None && !(r matches Err(CommitError::SideWrite(_)))
                ==> final(store).requested() == old(store).requested().push(
                commit_batch(old(self)@, staged@, side@),
            ),
            commit_gate(old(self)@, staged@) is Some || (r matches Err(CommitError::SideWrite(_)))
                ==> final(store).requested() == old(store).requested(),
            commit_gate(old(self)@, staged@) is None && !(r matches Err(CommitError::SideWrite(_)))
                ==> one_more(old(store).answers(), final(store).answers()) && commit_answer(
                final(store).answers().last(),
                r,
                staged.output_spec(),
            ),
            commit_gate(old(self)@, staged@) is Some || (r matches Err(CommitError::SideWrite(_)))
                ==> final(store).answers() == old(store).answers(),
            final(store).reads() == old(store).reads(),
    {
        proof {
            use_type_invariant(&*self);
            use_type_invariant(&staged);
        }
        match self.status {
            Status::Active => {},
            Status::Unresolved { attempted_generation } => {
                return Err(CommitError::Unresolved { attempted_generation });
            },
            Status::Conflicted => {
                return Err(CommitError::Conflicted);
            },
        }
        if staged.instance != self.instance || staged.base_generation != self.generation {
            return Err(CommitError::StaleTransition);
        }
        let binding = SessionBinding {
            our_identity_pk: self.our_identity_pk,
            peer_identity_pk: self.session.peer_identity_pk,
        };
        proof {
            lemma_storage_key_len(self.session.peer_identity_pk@);
        }
        let result = {
            let writes = match batch(
                Write {
                    key: self.key.as_str(),
                    expect: Expect::Predecessor {
                        generation: self.generation,
                        role: self.role,
                        binding: &binding,
                    },
                    value: staged.record.as_slice(),
                },
                side,
            ) {
                Ok(w) => w,
                Err(e) => {
                    return Err(CommitError::SideWrite(e));
                },
            };
            let r = store.write_conditional(writes.as_slice());
            proof {
                lemma_one_more(old(store).answers(), r);
                match r {
                    Err(WriteFailure::Conflict { index, .. }) => {
                        if index > 0 {
                            assert(writes@[(index - 1) + 1] == writes@[index as int]);
                        }
                    },
                    _ => {},
                }
                lemma_batch_model(writes@[0], side@, writes@);
            }
            r
        };
        match result {
            Ok(()) => {
                let StagedTransition { ratchet, output, generation, .. } = staged;
                self.session.ratchet = ratchet;
                self.generation = generation;
                Ok(output)
            },
            Err(WriteFailure::Conflict { index, conflict }) => {
                if index == 0 {
                    self.status = Status::Conflicted;
                    Err(CommitError::Conflict(conflict))
                } else {
                    Err(CommitError::SideConflict { index: index - 1, conflict })
                }
            },
            Err(WriteFailure::NotCommitted(e)) => Err(CommitError::NotCommitted(e)),
            Err(WriteFailure::OutcomeUnknown(e)) => {
                self.status = Status::Unresolved { attempted_generation: staged.generation };
                Err(CommitError::OutcomeUnknown(e))
            },
        }
    }
}

// ── Laws ──────────────────────────────────────────────────────────────────────

/// A row the store cannot authenticate is never a match, whatever is
/// expected of it.
pub proof fn lemma_unreadable_satisfies_nothing(expect: ExpectModel)
    ensures
        precondition_spec(CurrentModel::Unreadable, expect) is Err,
{
}

/// An instance whose commit conflicted or had an unknown outcome refuses
/// every further transition: staging and committing both fail before the
/// ratchet or the store is touched.
pub proof fn lemma_stopped_instance_refuses(m: DurableModel, st: StagedModel)
    requires
        m.status != Status::Active,
    ensures
        stage_gate(m) is Some,
        commit_gate(m, st) is Some,
{
}

/// A transition commits only onto the state it was staged from: once a
/// commit has installed it, the same transition, and any other staged from
/// the state before it, is stale.
pub proof fn lemma_transition_commits_once(m: DurableModel, st: StagedModel, other: StagedModel)
    requires
        m.status == Status::Active,
        st.base_generation == m.generation,
        st.generation == m.generation + 1,
        other.base_generation == m.generation,
    ensures
        commit_gate(advanced(m, st.ratchet, st.generation), other) == Some(
            CommitError::StaleTransition,
        ),
{
}

} // verus!
