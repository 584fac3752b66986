//! Free helpers of the messenger: reading back what earlier operations
//! committed, classifying refusals, and mapping durable-session errors.

use vstd::prelude::*;
use vstd::string::StringSliceAdditionalSpecFns;
use vstd::utf8::encode_utf8;

use crate::buf::bytes_eq;
use crate::durable::sealed::Store;
use crate::durable::{lemma_one_more, CommitError, S1CheckpointStore, StageError};
use crate::messaging::records::{
    abandoned_magic, abandoned_magic_spec, decode_handle, decode_handle_spec, decode_id_record,
    decode_id_record_spec, decode_inbox, decode_inbox_spec, decode_outbox, decode_outbox_spec,
    handle_key, handle_key_spec, inbox_key_spec, outbox_key, outbox_key_spec, seen_key_spec,
    seen_magic, seen_magic_spec,
    sendid_magic, sendid_magic_spec,
};
use crate::messaging::{MessageId, MessagingError, Received, SendOutcome};
use crate::storage::{
    answered_from, lemma_listing_complete, open_name_spec, record_row, KvTable, listing_of, one_more, open_value_spec, read_of, storage_key_spec, stored_name, stored_value,
    DbCall, EncryptedStore, StorageError, StoreTransaction,
};

verus! {

/// `more` is `calls` with further calls after them.
pub open spec fn extends(calls: Seq<DbCall>, more: Seq<DbCall>) -> bool {
    calls.len() <= more.len() && more.subrange(0, calls.len() as int) == calls
}

/// Some call of `calls`, from position `from` on, read the record named
/// `name`, and its value opened to `w`.
pub open spec fn read_in(master: Seq<u8>, calls: Seq<DbCall>, from: int, name: Seq<char>, w: Seq<u8>) -> bool {
    exists|j: int, b: Vec<u8>|
        0 <= j && from <= j < calls.len() && #[trigger] read_of(
            master,
            encode_utf8(name),
            calls[j],
            Ok::<Vec<u8>, StorageError>(b),
        ) && b@ == w
}

/// Some call of `calls`, from position `from` on, listed the namespace `ns`
/// and returned `names`.
pub open spec fn listed_in(master: Seq<u8>, calls: Seq<DbCall>, from: int, ns: Seq<u8>, names: Seq<String>) -> bool {
    exists|j: int, all: Vec<String>|
        0 <= j && from <= j < calls.len() && #[trigger] listing_of(
            master,
            ns,
            calls[j],
            Ok::<Vec<String>, StorageError>(all),
        ) && all@ == names
}

/// A read stays on record as calls follow it.
pub proof fn lemma_read_in_mono(
    master: Seq<u8>,
    calls: Seq<DbCall>,
    more: Seq<DbCall>,
    from: int,
    from2: int,
    name: Seq<char>,
    w: Seq<u8>,
)
    requires
        read_in(master, calls, from, name, w),
        extends(calls, more),
        from2 <= from,
    ensures
        read_in(master, more, from2, name, w),
{
    let (j, b) = choose|j: int, b: Vec<u8>|
        0 <= j && from <= j < calls.len() && #[trigger] read_of(
            master,
            encode_utf8(name),
            calls[j],
            Ok::<Vec<u8>, StorageError>(b),
        ) && b@ == w;
    assert(more[j] == more.subrange(0, calls.len() as int)[j]);
    assert(read_of(master, encode_utf8(name), more[j], Ok::<Vec<u8>, StorageError>(b)));
}

/// A listing stays on record as calls follow it.
pub proof fn lemma_listed_in_mono(
    master: Seq<u8>,
    calls: Seq<DbCall>,
    more: Seq<DbCall>,
    from: int,
    from2: int,
    ns: Seq<u8>,
    names: Seq<String>,
)
    requires
        listed_in(master, calls, from, ns, names),
        extends(calls, more),
        from2 <= from,
    ensures
        listed_in(master, more, from2, ns, names),
{
    let (j, all) = choose|j: int, all: Vec<String>|
        0 <= j && from <= j < calls.len() && #[trigger] listing_of(
            master,
            ns,
            calls[j],
            Ok::<Vec<String>, StorageError>(all),
        ) && all@ == names;
    assert(more[j] == more.subrange(0, calls.len() as int)[j]);
    assert(listing_of(master, ns, more[j], Ok::<Vec<String>, StorageError>(all)));
}

/// A read on record, with every call answered from table `t`, found what
/// `t` holds under the name's lookup key.
pub proof fn lemma_read_answered(
    master: Seq<u8>,
    t: KvTable,
    calls: Seq<DbCall>,
    from: int,
    name: Seq<char>,
    found: Seq<u8>,
    k: Seq<u8>,
    w: Seq<u8>,
)
    requires
        read_in(master, calls, from, name, found),
        forall|i: int| 0 <= i && from <= i < calls.len() ==> answered_from(t, #[trigger] calls[i]),
        t.contains_key(k),
        k == storage_key_spec(master, encode_utf8(name)),
        open_value_spec(master, encode_utf8(name), t[k].1) == Some(w),
    ensures
        found == w,
{
    let (j, b) = choose|j: int, b: Vec<u8>|
        0 <= j && from <= j < calls.len() && #[trigger] read_of(
            master,
            encode_utf8(name),
            calls[j],
            Ok::<Vec<u8>, StorageError>(b),
        ) && b@ == found;
    assert(answered_from(t, calls[j]));
}

/// A listing on record, with every call answered from table `t`, returned
/// the name of every record of its namespace that `t` holds.
pub proof fn lemma_listed_answered(
    master: Seq<u8>,
    t: KvTable,
    calls: Seq<DbCall>,
    from: int,
    ns: Seq<u8>,
    names: Seq<String>,
    k: Seq<u8>,
    name: Seq<char>,
)
    requires
        listed_in(master, calls, from, ns, names),
        forall|i: int| 0 <= i && from <= i < calls.len() ==> answered_from(t, #[trigger] calls[i]),
        record_row(master, t, k, ns, name),
    ensures
        exists|q: int| 0 <= q < names.len() && (#[trigger] names[q])@ == name,
{
    let (j, all) = choose|j: int, all: Vec<String>|
        0 <= j && from <= j < calls.len() && #[trigger] listing_of(
            master,
            ns,
            calls[j],
            Ok::<Vec<String>, StorageError>(all),
        ) && all@ == names;
    lemma_listing_complete(master, ns, t, calls[j], Ok::<Vec<String>, StorageError>(all));
    let q = choose|q: int|
        0 <= q < all@.len() && open_name_spec(master, t[k].0) == Some(encode_utf8(all@[q]@));
    vstd::utf8::encode_utf8_decode_utf8(all@[q]@);
    vstd::utf8::encode_utf8_decode_utf8(name);
    assert(names[q]@ == name);
}

/// A call more keeps the calls before it.
pub proof fn lemma_extends_push(calls: Seq<DbCall>, prev: Seq<DbCall>, new: Seq<DbCall>)
    requires
        extends(calls, prev),
        one_more(prev, new),
    ensures
        extends(calls, new),
        extends(prev, new),
{
    assert(new.subrange(0, prev.len() as int) =~= new.drop_last());
    assert(new.subrange(0, calls.len() as int) =~= prev.subrange(0, calls.len() as int));
}

/// `v` is the value of some stored record named `key` under `master`.
pub open spec fn stored_under(master: Seq<u8>, key: Seq<char>, v: Seq<u8>) -> bool {
    stored_value(master, encode_utf8(key), v)
}

/// Some stored handle record registers `peer` under `handle`.
pub open spec fn registered(master: Seq<u8>, handle: u64, peer: Seq<u8>) -> bool {
    exists|v: Seq<u8>|
        stored_under(master, handle_key_spec(handle), v) && #[trigger] decode_handle_spec(v) == Some(peer)
}

/// Whether `p` is a prefix of `k`, by bytes.
pub open spec fn bytes_prefix(p: Seq<u8>, k: Seq<u8>) -> bool {
    p.len() <= k.len() && k.subrange(0, p.len() as int) == p
}

fn has_prefix(k: &str, p: &str) -> (b: bool)
    ensures
        b == bytes_prefix(p.spec_bytes(), k.spec_bytes()),
{
    let kb = k.as_bytes();
    let pb = p.as_bytes();
    if pb.len() > kb.len() {
        return false;
    }
    bytes_eq(&kb[0..pb.len()], pb)
}

/// Maps a staging error. A fresh instance per operation is never unresolved
/// or conflicted.
pub fn stage_error(e: StageError) -> (r: MessagingError)
    ensures
        e matches StageError::Ratchet(x) ==> r matches MessagingError::Ratchet(y) && x == y,
        e matches StageError::Checkpoint(x) ==> r matches MessagingError::Checkpoint(y) && x == y,
        e is GenerationExhausted ==> r is GenerationExhausted,
        (e is Unresolved || e is Conflicted) ==> r is InconsistentStore,
{
    match e {
        StageError::Ratchet(e) => MessagingError::Ratchet(e),
        StageError::Checkpoint(e) => MessagingError::Checkpoint(e),
        StageError::GenerationExhausted => MessagingError::GenerationExhausted,
        StageError::Unresolved { .. } => MessagingError::InconsistentStore("unexpected stage state"),
        StageError::Conflicted => MessagingError::InconsistentStore("unexpected stage state"),
    }
}

/// After a refused creation: the handle belongs to another peer, or this
/// peer already has a session.
pub fn classify_taken(store: &mut EncryptedStore, handle: u64, peer: &[u8; 32]) -> (r: Result<
    MessagingError,
    MessagingError,
>)
    ensures
        final(store)@ == old(store)@,
        r matches Ok(e) ==> (e matches MessagingError::AlreadyExists { handle: h } && h == handle)
            || (e matches MessagingError::HandleCollision { handle: h } && h == handle),
        !(r matches Err(MessagingError::OutcomeUnknown { .. })),
        r matches Err(e) ==> e is Store || e is InvalidRecord,
        r matches Ok(MessagingError::HandleCollision { .. }) ==> exists|v: Seq<u8>|
            stored_under(old(store)@, handle_key_spec(handle), v) && (#[trigger] decode_handle_spec(v)
                matches Some(p) && p != peer@),
        one_more(old(store).calls(), final(store).calls()),
        final(store).calls().last() matches DbCall::Select { key: k, answer, .. } && k
            == storage_key_spec(old(store)@, encode_utf8(handle_key_spec(handle))) && match answer {
            Err(e) => r matches Err(MessagingError::Store(StorageError::Db(x))) && x == e,
            Ok(None) => r matches Ok(MessagingError::AlreadyExists { handle: h }) && h == handle,
            Ok(Some(row)) => match open_value_spec(
                old(store)@,
                encode_utf8(handle_key_spec(handle)),
                row@,
            ) {
                None => r matches Err(MessagingError::Store(StorageError::Decryption)),
                Some(v) => match decode_handle_spec(v) {
                    None => r matches Err(MessagingError::InvalidRecord(_)),
                    Some(p) => if p == peer@ {
                        r matches Ok(MessagingError::AlreadyExists { handle: h }) && h == handle
                    } else {
                        r matches Ok(MessagingError::HandleCollision { handle: h }) && h == handle
                    },
                },
            },
        },
{
    let key = handle_key(handle);
    match store.get(key.as_str()) {
        Ok(bytes) => {
            let other = decode_handle(bytes.as_slice())?;
            if bytes_eq(other.as_slice(), peer.as_slice()) {
                Ok(MessagingError::AlreadyExists { handle })
            } else {
                Ok(MessagingError::HandleCollision { handle })
            }
        },
        Err(StorageError::NotFound) => Ok(MessagingError::AlreadyExists { handle }),
        Err(e) => Err(MessagingError::Store(e)),
    }
}

/// What an earlier acceptance of the message `id` left, read through the
/// checkpoint store `store`: its pending inbox record, or its seen tombstone
/// once acknowledged. `None` if neither. The inbox key is read first; the
/// seen key only if no inbox record is stored.
pub fn read_duplicate(store: &mut S1CheckpointStore<'_>, inbox: &str, seen: &str, id: MessageId) -> (r:
    Result<Option<Received>, MessagingError>)
    ensures
        final(store).batches() == old(store).batches(),
        final(store).requested() == old(store).requested(),
        final(store).answers() == old(store).answers(),
        final(store).reads().len() > old(store).reads().len(),
        final(store).reads().subrange(0, old(store).reads().len() as int) == old(store).reads(),
        final(store).reads()[old(store).reads().len() as int].0 == inbox.spec_bytes(),
        match final(store).reads()[old(store).reads().len() as int].1 {
            Err(e) => final(store).reads().len() == old(store).reads().len() + 1 && (r matches Err(
                MessagingError::Store(x),
            ) && x == e),
            Ok(Some(w)) => final(store).reads().len() == old(store).reads().len() + 1 && (r is Ok
                ==> (r matches Ok(Some(Received::Duplicate { message_id, undelivered: Some(m) }))
                && message_id == id && m.message_id == id && decode_inbox_spec(w@) == Some(
                (m.generation, id@, m.plaintext@),
            ))),
            Ok(None) => final(store).reads().len() == old(store).reads().len() + 2
                && final(store).reads()[old(store).reads().len() + 1int].0 == seen.spec_bytes()
                && match final(store).reads()[old(store).reads().len() + 1int].1 {
                Err(e) => r matches Err(MessagingError::Store(x)) && x == e,
                Ok(None) => r matches Ok(None),
                Ok(Some(w)) => r is Ok ==> (r matches Ok(
                    Some(Received::Duplicate { message_id, undelivered: None }),
                ) && message_id == id && decode_id_record_spec(seen_magic_spec(), w@) == Some(
                    id@,
                )),
            },
        },
        r matches Ok(Some(d)) ==> d matches Received::Duplicate { message_id, undelivered }
            && message_id == id && (undelivered matches Some(m) ==> m.message_id == id),
        !(r matches Err(MessagingError::OutcomeUnknown { .. })),
        r matches Err(e) ==> e is Store || e is InvalidRecord,
{
    let first = store.read(inbox);
    proof {
        lemma_one_more(old(store).reads(), (inbox.spec_bytes(), first));
    }
    match first {
        Ok(Some(bytes)) => {
            let message = decode_inbox(bytes.as_slice())?;
            if !bytes_eq(message.message_id.as_slice(), id.as_slice()) {
                return Err(MessagingError::InvalidRecord("inbox"));
            }
            assert(message.message_id@ =~= id@);
            return Ok(Some(Received::Duplicate { message_id: id, undelivered: Some(message) }));
        },
        Ok(None) => {},
        Err(e) => {
            return Err(MessagingError::Store(e));
        },
    }
    let ghost mid = store.reads();
    let second = store.read(seen);
    proof {
        lemma_one_more(mid, (seen.spec_bytes(), second));
        assert(store.reads().subrange(0, old(store).reads().len() as int) =~= old(store).reads());
    }
    match second {
        Ok(Some(bytes)) => {
            let m = seen_magic();
            let seen_id = decode_id_record(&m, bytes.as_slice(), "seen")?;
            if !bytes_eq(seen_id.as_slice(), id.as_slice()) {
                return Err(MessagingError::InvalidRecord("seen"));
            }
            Ok(Some(Received::Duplicate { message_id: id, undelivered: None }))
        },
        Ok(None) => Ok(None),
        Err(e) => Err(MessagingError::Store(e)),
    }
}

/// What an earlier `send` of the same logical message committed, if any,
/// read through the checkpoint store `store`: the index record at
/// `index_key` names the message, and the outbox says whether it is still
/// pending. The index key is read first; the outbox key of the message it
/// names only if it is not marked abandoned.
pub fn read_prior_send(store: &mut S1CheckpointStore<'_>, peer: &[u8; 32], index_key: &str) -> (r:
    Result<Option<SendOutcome>, MessagingError>)
    ensures
        final(store).batches() == old(store).batches(),
        final(store).requested() == old(store).requested(),
        final(store).answers() == old(store).answers(),
        final(store).reads().len() > old(store).reads().len(),
        final(store).reads().subrange(0, old(store).reads().len() as int) == old(store).reads(),
        final(store).reads()[old(store).reads().len() as int].0 == index_key.spec_bytes(),
        match final(store).reads()[old(store).reads().len() as int].1 {
            Err(e) => final(store).reads().len() == old(store).reads().len() + 1 && (r matches Err(
                MessagingError::Store(x),
            ) && x == e),
            Ok(None) => final(store).reads().len() == old(store).reads().len() + 1 && (r matches Ok(
                None,
            )),
            Ok(Some(w)) => if w@.len() >= 7 && w@.subrange(0, 7) == abandoned_magic_spec() {
                final(store).reads().len() == old(store).reads().len() + 1 && (r is Ok ==> (r matches Ok(
                    Some(SendOutcome::Abandoned { message_id }),
                ) && decode_id_record_spec(abandoned_magic_spec(), w@) == Some(message_id@)))
            } else {
                match decode_id_record_spec(sendid_magic_spec(), w@) {
                    None => r is Err,
                    Some(id) => final(store).reads().len() == old(store).reads().len() + 2
                        && final(store).reads()[old(store).reads().len() + 1int].0 == encode_utf8(
                        outbox_key_spec(peer@, id),
                    ) && match final(store).reads()[old(store).reads().len() + 1int].1 {
                        Err(e) => r matches Err(MessagingError::Store(x)) && x == e,
                        Ok(None) => r matches Ok(
                            Some(SendOutcome::AlreadyAcknowledged { message_id }),
                        ) && message_id@ == id,
                        Ok(Some(b)) => r is Ok ==> (r matches Ok(
                            Some(SendOutcome::AlreadyPending(m)),
                        ) && decode_outbox_spec(b@) == Some(
                            (m.generation, m.message_id@, m.client_message_id@, m.wire@),
                        )),
                    },
                }
            },
        },
        r matches Ok(Some(SendOutcome::AlreadyPending(m))) ==> crate::messaging::message_id_spec(
            m.wire@,
        ) == m.message_id@,
        !(r matches Ok(Some(SendOutcome::Sent(_)))),
        !(r matches Err(MessagingError::OutcomeUnknown { .. })),
        r matches Err(e) ==> e is Store || e is InvalidRecord,
{
    let first = store.read(index_key);
    proof {
        lemma_one_more(old(store).reads(), (index_key.spec_bytes(), first));
    }
    let bytes = match first {
        Ok(Some(b)) => b,
        Ok(None) => {
            return Ok(None);
        },
        Err(e) => {
            return Err(MessagingError::Store(e));
        },
    };
    let x = abandoned_magic();
    if bytes.len() >= 7 && bytes_eq(&bytes.as_slice()[0..7], x.as_slice()) {
        let message_id = decode_id_record(&x, bytes.as_slice(), "sendid")?;
        return Ok(Some(SendOutcome::Abandoned { message_id }));
    }
    let s = sendid_magic();
    let id = decode_id_record(&s, bytes.as_slice(), "sendid")?;
    let key = outbox_key(peer, &id);
    let ghost mid = store.reads();
    let k = key.as_str();
    let second = store.read(k);
    proof {
        lemma_one_more(mid, (k.spec_bytes(), second));
        assert(store.reads().subrange(0, old(store).reads().len() as int) =~= old(store).reads());
    }
    match second {
        Ok(Some(b)) => {
            let m = decode_outbox(b.as_slice())?;
            Ok(Some(SendOutcome::AlreadyPending(m)))
        },
        Ok(None) => Ok(Some(SendOutcome::AlreadyAcknowledged { message_id: id })),
        Err(e) => Err(MessagingError::Store(e)),
    }
}

/// Commits a transaction that is not a session transition. An error from
/// the commit leaves the outcome unknown; it is never reported as a
/// rollback.
pub fn commit_repeatable(tx: StoreTransaction<'_>) -> (r: Result<(), MessagingError>)
    ensures
        r matches Err(e) ==> e is RepeatableOutcomeUnknown,
{
    match tx.commit() {
        Ok(()) => Ok(()),
        Err(e) => Err(MessagingError::RepeatableOutcomeUnknown(e)),
    }
}

/// Keys in `namespace` that start with `prefix`.
pub fn keys_under(store: &mut EncryptedStore, namespace: &str, prefix: &str) -> (r: Result<
    Vec<String>,
    MessagingError,
>)
    ensures
        final(store)@ == old(store)@,
        one_more(old(store).calls(), final(store).calls()),
        r matches Ok(keys) ==> forall|i: int|
            0 <= i < keys@.len() ==> bytes_prefix(prefix.spec_bytes(), encode_utf8(
                #[trigger] keys@[i]@,
            )) && stored_name(old(store)@, keys@[i]@),
        r matches Ok(keys) ==> exists|all: Seq<String>|
            #[trigger] listed_in(
                old(store)@,
                final(store).calls(),
                old(store).calls().len() as int,
                namespace.spec_bytes(),
                all,
            ) && forall|j: int|
                0 <= j < all.len() && bytes_prefix(prefix.spec_bytes(), encode_utf8(all[j]@))
                    ==> keys@.contains(#[trigger] all[j]),
        r matches Err(e) ==> e is Store,
{
    let all = match store.list_keys_with_prefix(namespace) {
        Ok(k) => k,
        Err(e) => {
            return Err(MessagingError::Store(e));
        },
    };
    proof {
        let j = store.calls().len() - 1;
        assert(listing_of(old(store)@, namespace.spec_bytes(), store.calls()[j], Ok::<Vec<String>, StorageError>(all)));
        assert(listed_in(old(store)@, store.calls(), old(store).calls().len() as int, namespace.spec_bytes(), all@));
    }
    let mut out: Vec<String> = Vec::new();
    let mut rest = all;
    let ghost listed = rest@;
    while rest.len() > 0
        invariant
            rest@.len() <= listed.len(),
            rest@ == listed.subrange(0, rest@.len() as int),
            forall|j: int|
                rest@.len() <= j < listed.len() && bytes_prefix(prefix.spec_bytes(), encode_utf8(listed[j]@))
                    ==> out@.contains(#[trigger] listed[j]),
            forall|i: int| 0 <= i < rest@.len() ==> stored_name(store@, (#[trigger] rest@[i])@),
            forall|i: int|
                0 <= i < out@.len() ==> bytes_prefix(prefix.spec_bytes(), encode_utf8(
                    #[trigger] out@[i]@,
                )) && stored_name(store@, out@[i]@),
        decreases rest@.len(),
    {
        let ghost before = rest@;
        let ghost out_before = out@;
        let k = rest.pop().unwrap();
        assert(before[before.len() - 1] == k);
        assert(forall|i: int| 0 <= i < rest@.len() ==> rest@[i] == before[i]);
        assert(rest@ =~= listed.subrange(0, rest@.len() as int));
        if has_prefix(k.as_str(), prefix) {
            out.push(k);
            assert(out@[out@.len() - 1] == k);
        }
        assert forall|j: int|
            rest@.len() <= j < listed.len() && bytes_prefix(prefix.spec_bytes(), encode_utf8(listed[j]@))
                implies out@.contains(#[trigger] listed[j]) by {
            if j == rest@.len() {
                assert(listed[j] == before[before.len() - 1]);
                assert(out@[out@.len() - 1] == listed[j]);
            } else {
                assert(out_before.contains(listed[j]));
                let q = choose|q: int| 0 <= q < out_before.len() && out_before[q] == listed[j];
                assert(out@[q] == out_before[q]);
            }
        }
    }
    Ok(out)
}

} // verus!
