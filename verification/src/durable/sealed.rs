//! The operations behind [`CheckpointStore`](super::CheckpointStore). This
//! module is visible only inside the crate, so the trait cannot be named,
//! and therefore not implemented, outside it.

use vstd::prelude::*;
use vstd::string::StringSliceAdditionalSpecFns;

use crate::crypto::aead_max_plaintext;
use crate::durable::{precondition_spec, Conflict, CurrentModel, ExpectModel};
use crate::session_checkpoint::{SessionBinding, SessionRole};
use crate::storage::StorageError;

verus! {

/// What a conditional write requires of the stored record.
pub enum Expect<'a> {
    /// No record may exist.
    Absent,
    /// The stored record must be this session's record at `generation`.
    Predecessor { generation: u64, role: SessionRole, binding: &'a SessionBinding },
    /// The stored record must be exactly these bytes.
    Exactly(&'a [u8]),
}

/// One write of a conditional batch: `value` replaces the record at `key`
/// only if `expect` holds for it.
pub struct Write<'a> {
    pub key: &'a str,
    pub expect: Expect<'a>,
    pub value: &'a [u8],
}

/// The stored record as seen inside the write transaction.
pub enum Current<'a> {
    Missing,
    /// A row exists but the store could not authenticate it.
    Unreadable,
    Present(&'a [u8]),
}

/// Why a conditional batch was not written.
pub enum WriteFailure {
    /// The precondition of `writes[index]` did not hold; nothing was written.
    Conflict { index: usize, conflict: Conflict },
    /// No record was stored.
    NotCommitted(StorageError),
    /// The records may or may not have been stored.
    OutcomeUnknown(StorageError),
}

pub open spec fn expect_model(e: Expect) -> ExpectModel {
    match e {
        Expect::Absent => ExpectModel::Absent,
        Expect::Predecessor { generation, role, binding } => ExpectModel::Predecessor {
            generation,
            role,
            our: binding.our_identity_pk@,
            peer: binding.peer_identity_pk@,
        },
        Expect::Exactly(b) => ExpectModel::Exactly(b@),
    }
}

pub open spec fn current_model(c: Current) -> CurrentModel {
    match c {
        Current::Missing => CurrentModel::Missing,
        Current::Unreadable => CurrentModel::Unreadable,
        Current::Present(b) => CurrentModel::Present(b@),
    }
}

/// Some stored record gives this conflict against `e`.
pub open spec fn conflict_possible(e: ExpectModel, c: Conflict) -> bool {
    exists|cur: CurrentModel| #[trigger] precondition_spec(cur, e) == Err::<(), Conflict>(c)
}

/// Some stored record satisfies `e`.
pub open spec fn satisfiable(e: ExpectModel) -> bool {
    exists|cur: CurrentModel| #[trigger] precondition_spec(cur, e) is Ok
}

/// Every key of the batch is short enough to be stored.
pub open spec fn keys_storable(writes: Seq<Write>) -> bool {
    forall|i: int| 0 <= i < writes.len() ==> (#[trigger] writes[i]).key.spec_bytes().len() <= aead_max_plaintext()
}

/// A write of a batch as plain values: the bytes of the key name, what it
/// requires of the stored record, and the value it stores.
pub struct WriteModel {
    pub key: Seq<u8>,
    pub expect: ExpectModel,
    pub value: Seq<u8>,
}

pub open spec fn write_model(w: Write) -> WriteModel {
    WriteModel { key: w.key.spec_bytes(), expect: expect_model(w.expect), value: w.value@ }
}

pub open spec fn batch_model(writes: Seq<Write>) -> Seq<WriteModel> {
    Seq::new(writes.len(), |i: int| write_model(writes[i]))
}

/// A store of session checkpoints with a conditional, atomic batch write.
pub trait Store {
    /// The batches this store has applied or tried to apply, oldest first:
    /// each was handed to [`write_conditional`](Self::write_conditional),
    /// every one of its preconditions held, every write was put, and the
    /// commit was attempted.
    spec fn batches(&self) -> Seq<Seq<WriteModel>>;

    /// Every batch handed to [`write_conditional`](Self::write_conditional),
    /// oldest first, whatever the store answered.
    spec fn requested(&self) -> Seq<Seq<WriteModel>>;

    /// Every read, oldest first: the bytes of the key name read and what the
    /// store answered.
    spec fn reads(&self) -> Seq<(Seq<u8>, Result<Option<Vec<u8>>, StorageError>)>;

    /// What [`write_conditional`](Self::write_conditional) answered, oldest
    /// first, one answer per batch in [`requested`](Self::requested).
    spec fn answers(&self) -> Seq<Result<(), WriteFailure>>;

    /// `Ok(None)` only when no record exists under `key`.
    fn read(&mut self, key: &str) -> (r: Result<Option<Vec<u8>>, StorageError>)
        ensures
            final(self).batches() == old(self).batches(),
            final(self).requested() == old(self).requested(),
            final(self).answers() == old(self).answers(),
            final(self).reads() == old(self).reads().push((key.spec_bytes(), r)),
    ;

    /// Checks every write's precondition against the stored records and,
    /// only if all hold, applies every write, all or none. A conflict names
    /// a write whose precondition some stored record refuses in that way;
    /// success means every precondition held.
    fn write_conditional(&mut self, writes: &[Write<'_>]) -> (r: Result<(), WriteFailure>)
        requires
            keys_storable(writes@),
        ensures
            r matches Err(WriteFailure::Conflict { index, conflict }) ==> index < writes@.len()
                && conflict_possible(expect_model(writes@[index as int].expect), conflict),
            r is Ok ==> forall|i: int|
                0 <= i < writes@.len() ==> satisfiable(expect_model((#[trigger] writes@[i]).expect)),
            final(self).requested() == old(self).requested().push(batch_model(writes@)),
            final(self).answers() == old(self).answers().push(r),
            final(self).reads() == old(self).reads(),
            (r is Ok || (r matches Err(WriteFailure::OutcomeUnknown(_)))) ==> final(self).batches()
                == old(self).batches().push(batch_model(writes@)),
            ((r matches Err(WriteFailure::Conflict { .. })) || (r matches Err(
                WriteFailure::NotCommitted(_),
            ))) ==> final(self).batches() == old(self).batches(),
    ;
}

} // verus!
