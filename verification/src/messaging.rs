//! Durable messaging: sessions addressed by a local handle, sends through an
//! outbox, receives through an inbox.
//!
//! Every operation loads the session from the store, stages its transition
//! on a copy, and commits the new checkpoint together with the record that
//! holds the operation's output (the outbox entry of a send, the inbox entry
//! of a receive) in one conditional transaction
//! ([`DurableSession::commit_with`]). The output is returned only after that
//! commit. Nothing is cached between operations, so a second [`Messenger`],
//! connection or process on the same database cannot advance a session from
//! a generation it no longer holds: the later commit is a conflict and
//! releases nothing.
//!
//! Not provided: power-loss durability beyond the store's configuration,
//! rollback protection against an older database file, and transport or peer
//! acknowledgement, which [`Messenger::acknowledge_outgoing`] stands in for.

use vstd::prelude::*;

use std::collections::HashMap;

pub mod helpers;
pub mod records;

use vstd::string::StringSliceAdditionalSpecFns;
use vstd::utf8::encode_utf8;

use crate::buf::{append_bytes, bytes_to_vec};
use crate::crypto::{aead_max_plaintext, sha256, sha256_spec, x25519_public_spec};
use crate::durable::sealed::Store;
use crate::durable::{
    lemma_one_more, one_more, side_model, staged_record, stored_session, CommitError, StoreLog,
    WriteFailure, Conflict, DurableModel, DurableSession, ExpectModel,
    OpenError, S1CheckpointStore, SideWrite, SideWriteError, WriteModel,
};
use crate::labels::{message_id_domain, message_id_domain_spec};
use crate::ratchet::{
    chain_next, header_bytes, message_key, receive_spec, sealed_under, Header, RatchetError,
    RatchetState, HEADER_SIZE,
};
use crate::session::Session;
use crate::session_checkpoint::{
    session_storage_key_spec, SessionBinding, SessionCheckpointError, SessionRole,
};
use crate::storage::{
    answered_from, open_value_spec, read_of, record_row, storage_key_spec, DbCall, EncryptedStore,
    KvTable, StorageError,
};
use crate::text::{hex_spec, hex_width_spec, lemma_encode_utf8_len, lemma_hex_len, lemma_hex_width_len};
use helpers::{
    bytes_prefix, classify_taken, extends, keys_under, lemma_extends_push, lemma_listed_answered,
    lemma_listed_in_mono, lemma_read_answered, lemma_read_in_mono, listed_in, read_duplicate, read_in, read_prior_send, registered, stage_error,
    stored_under,
};
use records::{
    abandoned_magic, decode_handle, decode_handle_spec, decode_id_record, decode_inbox,
    decode_outbox, encode_handle, encode_id_record, handle_record_spec, encode_inbox, encode_outbox, handle_key,
    handle_key_spec, handshake_key, handshake_key_spec, inbox_key, inbox_key_spec, inbox_prefix,
    outbox_key, outbox_key_spec, outbox_prefix, seen_key, seen_key_spec, seen_magic, seen_magic_spec,
    sendid_key, decode_inbox_spec, id_record_spec, inbox_record_spec, outbox_record_spec, sendid_magic_spec, decode_outbox_spec, decode_id_record_spec, inbox_prefix_spec,
    outbox_prefix_spec,
    sendid_key_spec, sendid_magic, INBOX_NAMESPACE, MAX_CLIENT_MESSAGE_ID_LEN, OUTBOX_NAMESPACE,
};

verus! {

/// Length of a [`MessageId`].
pub const MESSAGE_ID_LEN: usize = 32;

/// Identifies one exact message artifact:
/// `SHA-256("ARCIUM-MESSAGE-ID-V1" || wire)`. Both peers derive the same id
/// from the same bytes; it is never transmitted and is not a MAC.
pub type MessageId = [u8; 32];

/// The id of the message whose wire bytes are `wire`.
pub open spec fn message_id_spec(wire: Seq<u8>) -> Seq<u8> {
    sha256_spec(message_id_domain_spec() + wire)
}

/// The id of the message whose wire bytes are `wire`.
pub fn message_id(wire: &[u8]) -> (id: MessageId)
    ensures
        id@ == message_id_spec(wire@),
{
    let domain = message_id_domain();
    let mut input: Vec<u8> = Vec::new();
    append_bytes(&mut input, domain.as_slice());
    append_bytes(&mut input, wire);
    sha256(input.as_slice())
}

/// Both peers derive one id for a message: the id a sender's outgoing
/// message carries (as [`Messenger::send`] returns it) is the id the
/// receiver's accepted message carries for the same wire bytes (as
/// [`Messenger::receive`] returns it).
pub proof fn lemma_both_sides_derive_one_id(sent: OutgoingMessage, got: IncomingMessage, wire: Seq<u8>)
    requires
        sent.wire@ == wire,
        sent.message_id@ == message_id_spec(sent.wire@),
        got.message_id@ == message_id_spec(wire),
    ensures
        sent.message_id@ == got.message_id@,
{
}

/// An unresolved handle stays unresolved, with the same attempted
/// generation and artifact, through any call whose effect on the unresolved
/// set touches only another handle (an unknown outcome there, or no change
/// at all). Calls on the handle itself, other than [`Messenger::recover`] and
/// a successful [`Messenger::create_session`], leave the set as it was, so
/// [`Messenger::send`] and [`Messenger::receive`] keep refusing the handle
/// with that generation until it is recovered.
pub proof fn lemma_unresolved_handle_persists(
    before: Map<u64, UnresolvedCommit>,
    after: Map<u64, UnresolvedCommit>,
    handle: u64,
    other: u64,
)
    requires
        before.contains_key(handle),
        other != handle,
        after == before || after.remove(other) == before.remove(other),
    ensures
        after.contains_key(handle),
        after[handle] == before[handle],
{
    if after != before {
        assert(before.remove(other).contains_key(handle));
        assert(after.remove(other)[handle] == after[handle]);
    }
}

/// `wire` is the ratchet encryption of `plaintext` by the session `m` stored
/// in `rec`: its header names the session's DH key and counters, its
/// ciphertext seals `plaintext` under the message key of the session's
/// sending chain, bound to the associated data and the header, and the send
/// commits the next generation.
pub open spec fn sent_from(
    rec: Seq<u8>,
    m: DurableModel,
    plaintext: Seq<u8>,
    wire: Seq<u8>,
    generation: u64,
    h: Header,
    ct: Seq<u8>,
) -> bool {
    &&& stored_session(rec, m)
    &&& m.ratchet.cks matches Some(ck)
    &&& wire == header_bytes(h) + ct
    &&& h.dh@ == x25519_public_spec(m.ratchet.dhs)
    &&& h.pn == m.ratchet.pn
    &&& h.n == m.ratchet.ns
    &&& sealed_under(message_key(ck), ct, plaintext, m.ad + header_bytes(h))
    &&& generation == m.generation + 1
}

/// `wire` is the ratchet encryption of `plaintext` by a stored session of
/// `our` identity with the peer registered under `handle` (see
/// [`sent_from`]).
pub open spec fn sent_by_session(
    master: Seq<u8>,
    our: Seq<u8>,
    handle: u64,
    plaintext: Seq<u8>,
    wire: Seq<u8>,
    generation: u64,
) -> bool {
    exists|rec: Seq<u8>, m: DurableModel, h: Header, ct: Seq<u8>|
        #[trigger] sent_from(rec, m, plaintext, wire, generation, h, ct) && m.our == our
            && registered(master, handle, m.peer)
}

/// `plaintext` is what the session `m` stored in `rec` decrypts `wire` to
/// under the ratchet's receive rules, the header being `wire`'s first 40
/// bytes, and the receipt commits the next generation.
pub open spec fn received_from(
    rec: Seq<u8>,
    m: DurableModel,
    wire: Seq<u8>,
    plaintext: Seq<u8>,
    generation: u64,
    h: Header,
    dhs: Seq<u8>,
) -> bool {
    &&& stored_session(rec, m)
    &&& wire.len() >= 40
    &&& header_bytes(h) == wire.subrange(0, 40)
    &&& receive_spec(m.ratchet, h, wire.subrange(40, wire.len() as int), m.ad, dhs).1 == Ok::<
        Seq<u8>,
        RatchetError,
    >(plaintext)
    &&& generation == m.generation + 1
}

/// `plaintext` is what a stored session of `our` identity with the peer
/// registered under `handle` decrypts `wire` to (see [`received_from`]).
pub open spec fn received_by_session(
    master: Seq<u8>,
    our: Seq<u8>,
    handle: u64,
    wire: Seq<u8>,
    plaintext: Seq<u8>,
    generation: u64,
) -> bool {
    exists|rec: Seq<u8>, m: DurableModel, h: Header, dhs: Seq<u8>|
        #[trigger] received_from(rec, m, wire, plaintext, generation, h, dhs) && m.our == our
            && registered(master, handle, m.peer)
}

/// Some message of `v` is the inbox record `rec`.
pub open spec fn holds_incoming(v: Seq<IncomingMessage>, rec: (u64, Seq<u8>, Seq<u8>)) -> bool {
    exists|k: int|
        0 <= k < v.len() && (#[trigger] v[k]).generation == rec.0 && v[k].message_id@ == rec.1
            && v[k].plaintext@ == rec.2
}

/// A call of `calls`, from position `from` on, read the record named
/// `name`, and it decodes to an inbox record that `v` holds.
pub open spec fn incoming_read(
    master: Seq<u8>,
    calls: Seq<DbCall>,
    from: int,
    name: Seq<char>,
    v: Seq<IncomingMessage>,
) -> bool {
    exists|w: Seq<u8>|
        #[trigger] read_in(master, calls, from, name, w) && (decode_inbox_spec(w) matches Some(rec)
            && holds_incoming(v, rec))
}

/// What a listing of the pending incoming messages of `handle` that
/// returned `v` ran, from position `from` of `calls` on: a read of the
/// handle's record, which names a peer; a listing of the inbox namespace;
/// and a read of every listed record under that peer's inbox prefix, each
/// of which decodes to a message of `v`.
pub open spec fn pending_incoming_run(
    master: Seq<u8>,
    handle: u64,
    calls: Seq<DbCall>,
    from: int,
    v: Seq<IncomingMessage>,
) -> bool {
    exists|hb: Seq<u8>, names: Seq<String>|
        #[trigger] read_in(master, calls, from, handle_key_spec(handle), hb) && #[trigger] listed_in(
            master,
            calls,
            from,
            INBOX_NAMESPACE.spec_bytes(),
            names,
        ) && (decode_handle_spec(hb) matches Some(p) && forall|j: int|
            0 <= j < names.len() && bytes_prefix(encode_utf8(inbox_prefix_spec(p)), encode_utf8(names[j]@))
                ==> #[trigger] incoming_read(master, calls, from, names[j]@, v))
}

/// A read on record stays so as calls follow it and as the messages it
/// found are kept.
proof fn lemma_incoming_read_mono(
    master: Seq<u8>,
    calls: Seq<DbCall>,
    more: Seq<DbCall>,
    from: int,
    name: Seq<char>,
    v: Seq<IncomingMessage>,
    v2: Seq<IncomingMessage>,
)
    requires
        incoming_read(master, calls, from, name, v),
        extends(calls, more),
        forall|k: int| 0 <= k < v.len() ==> v2.contains(#[trigger] v[k]),
    ensures
        incoming_read(master, more, from, name, v2),
{
    let w = choose|w: Seq<u8>|
        #[trigger] read_in(master, calls, from, name, w) && (decode_inbox_spec(w) matches Some(rec)
            && holds_incoming(v, rec));
    lemma_read_in_mono(master, calls, more, from, from, name, w);
    let rec = decode_inbox_spec(w)->Some_0;
    let k = choose|k: int|
        0 <= k < v.len() && (#[trigger] v[k]).generation == rec.0 && v[k].message_id@ == rec.1
            && v[k].plaintext@ == rec.2;
    assert(v2.contains(v[k]));
    let k2 = choose|k2: int| 0 <= k2 < v2.len() && v2[k2] == v[k];
    assert(holds_incoming(v2, rec));
    assert(read_in(master, more, from, name, w));
}

/// Some message of `v` is the outbox record `rec`.
pub open spec fn holds_outgoing(v: Seq<OutgoingMessage>, rec: (u64, Seq<u8>, Seq<u8>, Seq<u8>)) -> bool {
    exists|k: int|
        0 <= k < v.len() && (#[trigger] v[k]).generation == rec.0 && v[k].message_id@ == rec.1
            && v[k].client_message_id@ == rec.2 && v[k].wire@ == rec.3
}

/// A call of `calls`, from position `from` on, read the record named
/// `name`, and it decodes to an outbox record that `v` holds.
pub open spec fn outgoing_read(
    master: Seq<u8>,
    calls: Seq<DbCall>,
    from: int,
    name: Seq<char>,
    v: Seq<OutgoingMessage>,
) -> bool {
    exists|w: Seq<u8>|
        #[trigger] read_in(master, calls, from, name, w) && (decode_outbox_spec(w) matches Some(rec)
            && holds_outgoing(v, rec))
}

/// What a listing of the pending outgoing messages of `handle` that
/// returned `v` ran, from position `from` of `calls` on: a read of the
/// handle's record, which names a peer; a listing of the outbox namespace;
/// and a read of every listed record under that peer's outbox prefix, each
/// of which decodes to a message of `v`.
pub open spec fn pending_outgoing_run(
    master: Seq<u8>,
    handle: u64,
    calls: Seq<DbCall>,
    from: int,
    v: Seq<OutgoingMessage>,
) -> bool {
    exists|hb: Seq<u8>, names: Seq<String>|
        #[trigger] read_in(master, calls, from, handle_key_spec(handle), hb) && #[trigger] listed_in(
            master,
            calls,
            from,
            OUTBOX_NAMESPACE.spec_bytes(),
            names,
        ) && (decode_handle_spec(hb) matches Some(p) && forall|j: int|
            0 <= j < names.len() && bytes_prefix(encode_utf8(outbox_prefix_spec(p)), encode_utf8(names[j]@))
                ==> #[trigger] outgoing_read(master, calls, from, names[j]@, v))
}

/// A read on record stays so as calls follow it and as the messages it
/// found are kept.
proof fn lemma_outgoing_read_mono(
    master: Seq<u8>,
    calls: Seq<DbCall>,
    more: Seq<DbCall>,
    from: int,
    name: Seq<char>,
    v: Seq<OutgoingMessage>,
    v2: Seq<OutgoingMessage>,
)
    requires
        outgoing_read(master, calls, from, name, v),
        extends(calls, more),
        forall|k: int| 0 <= k < v.len() ==> v2.contains(#[trigger] v[k]),
    ensures
        outgoing_read(master, more, from, name, v2),
{
    let w = choose|w: Seq<u8>|
        #[trigger] read_in(master, calls, from, name, w) && (decode_outbox_spec(w) matches Some(rec)
            && holds_outgoing(v, rec));
    lemma_read_in_mono(master, calls, more, from, from, name, w);
    let rec = decode_outbox_spec(w)->Some_0;
    let k = choose|k: int|
        0 <= k < v.len() && (#[trigger] v[k]).generation == rec.0 && v[k].message_id@ == rec.1
            && v[k].client_message_id@ == rec.2 && v[k].wire@ == rec.3;
    assert(v2.contains(v[k]));
    let k2 = choose|k2: int| 0 <= k2 < v2.len() && v2[k2] == v[k];
    assert(holds_outgoing(v2, rec));
    assert(read_in(master, more, from, name, w));
}

/// Table `t` registers the peer `p` under `handle`: the row under the
/// handle record's lookup key holds a value that opens to a handle record
/// naming `p`.
pub open spec fn registers(master: Seq<u8>, t: KvTable, handle: u64, p: Seq<u8>) -> bool {
    let name = encode_utf8(handle_key_spec(handle));
    let k = storage_key_spec(master, name);
    t.contains_key(k) && (open_value_spec(master, name, t[k].1) matches Some(v) && decode_handle_spec(v)
        == Some(p))
}

/// Listing the pending incoming messages is complete: when
/// [`Messenger::pending_incoming`] succeeds, and SQLite answered each
/// statement it ran from table `t`, every record of the inbox namespace in
/// `t` under the inbox prefix of the peer that `t` registers under
/// `handle`, whose value opens and decodes, is among the messages returned.
pub proof fn lemma_pending_incoming_complete(
    master: Seq<u8>,
    handle: u64,
    t: KvTable,
    calls: Seq<DbCall>,
    from: int,
    v: Seq<IncomingMessage>,
    p: Seq<u8>,
    k: Seq<u8>,
    name: Seq<char>,
    w: Seq<u8>,
)
    requires
        pending_incoming_run(master, handle, calls, from, v),
        forall|i: int| 0 <= i && from <= i < calls.len() ==> answered_from(t, #[trigger] calls[i]),
        registers(master, t, handle, p),
        record_row(master, t, k, INBOX_NAMESPACE.spec_bytes(), name),
        bytes_prefix(encode_utf8(inbox_prefix_spec(p)), encode_utf8(name)),
        open_value_spec(master, encode_utf8(name), t[k].1) == Some(w),
        decode_inbox_spec(w) is Some,
    ensures
        holds_incoming(v, decode_inbox_spec(w)->Some_0),
{
    let (hb, names) = choose|hb: Seq<u8>, names: Seq<String>|
        #[trigger] read_in(master, calls, from, handle_key_spec(handle), hb) && #[trigger] listed_in(
            master,
            calls,
            from,
            INBOX_NAMESPACE.spec_bytes(),
            names,
        ) && (decode_handle_spec(hb) matches Some(p) && forall|j: int|
            0 <= j < names.len() && bytes_prefix(encode_utf8(inbox_prefix_spec(p)), encode_utf8(names[j]@))
                ==> #[trigger] incoming_read(master, calls, from, names[j]@, v));
    let hk = storage_key_spec(master, encode_utf8(handle_key_spec(handle)));
    let hv = open_value_spec(master, encode_utf8(handle_key_spec(handle)), t[hk].1)->Some_0;
    lemma_read_answered(master, t, calls, from, handle_key_spec(handle), hb, hk, hv);
    lemma_listed_answered(master, t, calls, from, INBOX_NAMESPACE.spec_bytes(), names, k, name);
    let q = choose|q: int| 0 <= q < names.len() && (#[trigger] names[q])@ == name;
    assert(incoming_read(master, calls, from, names[q]@, v));
    let found = choose|found: Seq<u8>|
        #[trigger] read_in(master, calls, from, name, found) && (decode_inbox_spec(found) matches Some(rec)
            && holds_incoming(v, rec));
    lemma_read_answered(master, t, calls, from, name, found, k, w);
}

/// Listing the pending outgoing messages is complete: when
/// [`Messenger::pending_outgoing`] succeeds, and SQLite answered each
/// statement it ran from table `t`, every record of the outbox namespace in
/// `t` under the outbox prefix of the peer that `t` registers under
/// `handle`, whose value opens and decodes, is among the messages returned.
pub proof fn lemma_pending_outgoing_complete(
    master: Seq<u8>,
    handle: u64,
    t: KvTable,
    calls: Seq<DbCall>,
    from: int,
    v: Seq<OutgoingMessage>,
    p: Seq<u8>,
    k: Seq<u8>,
    name: Seq<char>,
    w: Seq<u8>,
)
    requires
        pending_outgoing_run(master, handle, calls, from, v),
        forall|i: int| 0 <= i && from <= i < calls.len() ==> answered_from(t, #[trigger] calls[i]),
        registers(master, t, handle, p),
        record_row(master, t, k, OUTBOX_NAMESPACE.spec_bytes(), name),
        bytes_prefix(encode_utf8(outbox_prefix_spec(p)), encode_utf8(name)),
        open_value_spec(master, encode_utf8(name), t[k].1) == Some(w),
        decode_outbox_spec(w) is Some,
    ensures
        holds_outgoing(v, decode_outbox_spec(w)->Some_0),
{
    let (hb, names) = choose|hb: Seq<u8>, names: Seq<String>|
        #[trigger] read_in(master, calls, from, handle_key_spec(handle), hb) && #[trigger] listed_in(
            master,
            calls,
            from,
            OUTBOX_NAMESPACE.spec_bytes(),
            names,
        ) && (decode_handle_spec(hb) matches Some(p) && forall|j: int|
            0 <= j < names.len() && bytes_prefix(encode_utf8(outbox_prefix_spec(p)), encode_utf8(names[j]@))
                ==> #[trigger] outgoing_read(master, calls, from, names[j]@, v));
    let hk = storage_key_spec(master, encode_utf8(handle_key_spec(handle)));
    let hv = open_value_spec(master, encode_utf8(handle_key_spec(handle)), t[hk].1)->Some_0;
    lemma_read_answered(master, t, calls, from, handle_key_spec(handle), hb, hk, hv);
    lemma_listed_answered(master, t, calls, from, OUTBOX_NAMESPACE.spec_bytes(), names, k, name);
    let q = choose|q: int| 0 <= q < names.len() && (#[trigger] names[q])@ == name;
    assert(outgoing_read(master, calls, from, names[q]@, v));
    let found = choose|found: Seq<u8>|
        #[trigger] read_in(master, calls, from, name, found) && (decode_outbox_spec(found) matches Some(rec)
            && holds_outgoing(v, rec));
    lemma_read_answered(master, t, calls, from, name, found, k, w);
}

/// A stored record among the pending incoming messages from the peer
/// registered under `handle` decodes to `m`.
pub open spec fn in_inbox(master: Seq<u8>, handle: u64, m: IncomingMessage) -> bool {
    exists|p: Seq<u8>, k: Seq<char>, w: Seq<u8>|
        #![trigger registered(master, handle, p), stored_under(master, k, w)]
        registered(master, handle, p) && bytes_prefix(encode_utf8(inbox_prefix_spec(p)), encode_utf8(k))
            && stored_under(master, k, w) && decode_inbox_spec(w) == Some(
            (m.generation, m.message_id@, m.plaintext@),
        )
}

/// A stored record among the pending outgoing messages to the peer
/// registered under `handle` decodes to `m`.
pub open spec fn in_outbox(master: Seq<u8>, handle: u64, m: OutgoingMessage) -> bool {
    exists|p: Seq<u8>, k: Seq<char>, w: Seq<u8>|
        #![trigger registered(master, handle, p), stored_under(master, k, w)]
        registered(master, handle, p) && bytes_prefix(encode_utf8(outbox_prefix_spec(p)), encode_utf8(k))
            && stored_under(master, k, w) && decode_outbox_spec(w) == Some(
            (m.generation, m.message_id@, m.client_message_id@, m.wire@),
        )
}

/// A committed outgoing message. `wire` is exactly what must be sent, on the
/// first attempt and on every retransmission.
#[derive(Debug, Clone, PartialEq, Eq)]
pub struct OutgoingMessage {
    pub message_id: MessageId,
    /// The caller's id for this logical message, as given to
    /// [`Messenger::send`].
    pub client_message_id: Vec<u8>,
    /// The session generation this message's send committed.
    pub generation: u64,
    pub wire: Vec<u8>,
}

/// The result of [`Messenger::send`].
#[derive(Debug, Clone, PartialEq, Eq)]
pub enum SendOutcome {
    /// Newly encrypted and committed with its outbox record.
    Sent(OutgoingMessage),
    /// This logical message was sent before and is still pending: the stored
    /// message, byte for byte. Nothing was encrypted.
    AlreadyPending(OutgoingMessage),
    /// This logical message was sent before and has been acknowledged.
    AlreadyAcknowledged { message_id: MessageId },
    /// This logical message was sent before and then abandoned; sending the
    /// content again takes a new logical id.
    Abandoned { message_id: MessageId },
}

/// A committed incoming message.
#[derive(Debug, Clone, PartialEq, Eq)]
pub struct IncomingMessage {
    pub message_id: MessageId,
    /// The session generation this message's receipt committed.
    pub generation: u64,
    pub plaintext: Vec<u8>,
}

/// The result of [`Messenger::receive`].
#[derive(Debug, PartialEq, Eq)]
pub enum Received {
    /// Newly accepted: the ratchet advanced and the message was committed as
    /// undelivered.
    Accepted(IncomingMessage),
    /// This exact message was accepted before; the ratchet was not touched.
    /// `undelivered` carries it again if it has not been acknowledged yet.
    Duplicate { message_id: MessageId, undelivered: Option<IncomingMessage> },
}

/// A new session to store, from X3DH.
pub struct NewSession {
    pub handle: u64,
    pub session: Session,
    pub role: SessionRole,
    /// Bytes the peer needs to complete the handshake, kept so they can be
    /// sent again after a restart.
    pub initial_outbound: Option<Vec<u8>>,
    /// Further records to write in the same transaction.
    pub extra: Vec<SideWrite>,
}

/// What [`Messenger::recover`] found for an unresolved session.
#[derive(Debug, Clone, Copy, PartialEq, Eq, Structural)]
pub struct Recovery {
    /// The generation whose commit reported an unknown outcome.
    pub attempted_generation: u64,
    /// The generation the store holds now.
    pub stored_generation: u64,
    /// Whether the store holds that transition's outbox or inbox record, as
    /// read now.
    pub artifact_committed: bool,
}

/// Why a messaging operation failed. In every case no output was released.
#[derive(Debug)]
pub enum MessagingError {
    /// No session is registered under this handle.
    NoSession { handle: u64 },
    /// This peer already has a session (valid or not); nothing was written.
    AlreadyExists { handle: u64 },
    /// The handle is registered to a different peer; nothing was written.
    HandleCollision { handle: u64 },
    /// The handle names a peer whose session record is missing.
    MissingSession { handle: u64 },
    /// A stored session record is malformed, unsupported or bound to other
    /// identities. It is left as it is.
    InvalidSession(SessionCheckpointError),
    /// A stored handle, outbox, inbox, seen or send-id record is malformed.
    InvalidRecord(&'static str),
    /// A record exists that only this module writes, in a state this module
    /// never leaves it in.
    InconsistentStore(&'static str),
    /// Not a message: shorter than a header, or a malformed header.
    MalformedMessage,
    /// The message does not decrypt; nothing was written.
    Ratchet(RatchetError),
    /// The transition's state cannot be persisted; nothing was written.
    Checkpoint(SessionCheckpointError),
    GenerationExhausted,
    /// The stored session is not the generation this operation loaded.
    Conflict(Conflict),
    /// A precondition on `NewSession::extra[index]` failed; nothing was
    /// written.
    ExtraConflict { index: usize, conflict: Conflict },
    SideWrite(SideWriteError),
    /// Reading the store failed.
    Store(StorageError),
    /// The store definitely kept nothing.
    NotCommitted(StorageError),
    /// An acknowledgement, abandonment or removal may or may not have taken
    /// effect; repeating the call is safe and reports what the store holds.
    RepeatableOutcomeUnknown(StorageError),
    /// The commit's outcome is unknown; its output was withheld. The session
    /// refuses transitions until [`Messenger::recover`].
    OutcomeUnknown { attempted_generation: u64, error: StorageError },
    /// An earlier commit on this session had an unknown outcome and has not
    /// been recovered.
    Unresolved { attempted_generation: u64 },
    /// No message with this id is recorded for this session.
    UnknownMessage,
    /// A caller's logical message id must be 1 to 64 bytes.
    InvalidClientMessageId,
    /// The session has committed a message from the peer, which then holds
    /// the session too; nothing was changed.
    SessionEstablished,
    /// The session has outgoing messages that are neither acknowledged nor
    /// abandoned; nothing was changed.
    PendingOutgoing { count: usize },
}

// ── The messenger ─────────────────────────────────────────────────────────────

broadcast use vstd::std_specs::hash::group_hash_axioms;

/// A commit whose outcome is unknown: the generation it attempted and the
/// key of the outbox or inbox record that shows whether it took effect.
pub struct UnresolvedCommit {
    pub attempted_generation: u64,
    pub artifact_key: String,
}

/// Durable messaging over an [`EncryptedStore`]. Holds no session state;
/// only the sessions whose last commit had an unknown outcome.
pub struct Messenger {
    unresolved: HashMap<u64, UnresolvedCommit>,
    log: StoreLog,
}

impl View for Messenger {
    type V = Map<u64, UnresolvedCommit>;

    closed spec fn view(&self) -> Map<u64, UnresolvedCommit> {
        self.unresolved@
    }
}

/// Every key this module builds fits what the store accepts.
proof fn lemma_key_fits(k: Seq<char>)
    requires
        k.len() <= 1000,
    ensures
        encode_utf8(k).len() <= aead_max_plaintext(),
{
    lemma_encode_utf8_len(k);
}

/// What an operation does to the unresolved set: an unknown outcome marks
/// the handle, anything else leaves the set as it was.
pub open spec fn after_commit(
    before: Map<u64, UnresolvedCommit>,
    after: Map<u64, UnresolvedCommit>,
    handle: u64,
    outcome_unknown: bool,
    attempted_generation: u64,
    artifact_key: Seq<char>,
) -> bool {
    if outcome_unknown {
        &&& after.dom() == before.dom().insert(handle)
        &&& after.remove(handle) == before.remove(handle)
        &&& after[handle].attempted_generation == attempted_generation
        &&& after[handle].artifact_key@ == artifact_key
    } else {
        after == before
    }
}

/// `Some(b@)` for `Some(b)`.
pub open spec fn opt_bytes(o: Option<Vec<u8>>) -> Option<Seq<u8>> {
    match o {
        Some(b) => Some(b@),
        None => None,
    }
}

/// The batch creating a session hands to the store: the generation-0
/// `record` under the peer's session key, the handle record, the initial
/// outbound bytes if any, then the extra writes; each expects no record yet
/// but the extra writes, which carry their own preconditions.
pub open spec fn session_creation_batch(
    handle: u64,
    peer: Seq<u8>,
    record: Seq<u8>,
    initial_outbound: Option<Seq<u8>>,
    extra: Seq<SideWrite>,
) -> Seq<WriteModel> {
    seq![
        WriteModel {
            key: encode_utf8(session_storage_key_spec(peer)),
            expect: ExpectModel::Absent,
            value: record,
        },
        WriteModel {
            key: encode_utf8(handle_key_spec(handle)),
            expect: ExpectModel::Absent,
            value: handle_record_spec(peer),
        },
    ] + match initial_outbound {
        Some(b) => seq![
            WriteModel {
                key: encode_utf8(handshake_key_spec(peer)),
                expect: ExpectModel::Absent,
                value: b,
            },
        ],
        None => Seq::empty(),
    } + side_model(extra)
}

/// The batch a send by the session `m` hands to the store, committing
/// `generation` with the message `id` of `wire` for the caller's
/// `client_id`: the session's record after one more message on its sending
/// chain, expecting its current record, then the message's outbox record and
/// its send-id record, each expecting no record yet.
pub open spec fn send_batch(
    m: DurableModel,
    generation: u64,
    id: Seq<u8>,
    client_id: Seq<u8>,
    wire: Seq<u8>,
) -> Seq<WriteModel> {
    let v = RatchetState {
        cks: Some(chain_next(m.ratchet.cks->Some_0)),
        ns: (m.ratchet.ns + 1) as u32,
        ..m.ratchet
    };
    seq![
        WriteModel {
            key: encode_utf8(session_storage_key_spec(m.peer)),
            expect: ExpectModel::Predecessor {
                generation: m.generation,
                role: m.role,
                our: m.our,
                peer: m.peer,
            },
            value: staged_record(m, v, generation),
        },
        WriteModel {
            key: encode_utf8(outbox_key_spec(m.peer, id)),
            expect: ExpectModel::Absent,
            value: outbox_record_spec(generation, id, client_id, wire),
        },
        WriteModel {
            key: encode_utf8(sendid_key_spec(m.peer, client_id)),
            expect: ExpectModel::Absent,
            value: id_record_spec(sendid_magic_spec(), id),
        },
    ]
}

/// The batch a receipt by the session `m` hands to the store, moving its
/// ratchet to `v` and committing `generation` with the message `id` that
/// decrypted to `plaintext`: the session's new record, expecting its current
/// record, then the message's inbox record, expecting no record yet.
pub open spec fn receive_batch(
    m: DurableModel,
    v: RatchetState,
    generation: u64,
    id: Seq<u8>,
    plaintext: Seq<u8>,
) -> Seq<WriteModel> {
    seq![
        WriteModel {
            key: encode_utf8(session_storage_key_spec(m.peer)),
            expect: ExpectModel::Predecessor {
                generation: m.generation,
                role: m.role,
                our: m.our,
                peer: m.peer,
            },
            value: staged_record(m, v, generation),
        },
        WriteModel {
            key: encode_utf8(inbox_key_spec(m.peer, id)),
            expect: ExpectModel::Absent,
            value: inbox_record_spec(generation, id, plaintext),
        },
    ]
}

/// `after` is `before` with the batch of a receipt of `wire` decrypting to
/// `plaintext` by a stored session of `our` identity with the peer
/// registered under `handle`, committing `generation` (see
/// [`receive_batch`]).
pub open spec fn receipt_handed(
    master: Seq<u8>,
    our: Seq<u8>,
    handle: u64,
    wire: Seq<u8>,
    plaintext: Seq<u8>,
    generation: u64,
    before: Seq<Seq<WriteModel>>,
    after: Seq<Seq<WriteModel>>,
) -> bool {
    exists|rec: Seq<u8>, m: DurableModel, h: Header, dhs: Seq<u8>|
        #[trigger] received_from(rec, m, wire, plaintext, generation, h, dhs) && m.our == our
            && registered(master, handle, m.peer) && after == before.push(
            receive_batch(
                m,
                receive_spec(m.ratchet, h, wire.subrange(40, wire.len() as int), m.ad, dhs).0,
                generation,
                message_id_spec(wire),
                plaintext,
            ),
        )
}

/// What [`Messenger::create_session`] returns for the store's answer `a` to
/// its creation batch, `offset` being the number of side writes before the
/// extra ones: nothing for a committed batch; for a conflict on the session
/// record or the handle record, whether the handle is taken by another peer
/// or the session exists (or the read telling them apart failed); an
/// inconsistency for a conflict on the initial outbound record; the extra
/// write's conflict; and the store's error otherwise.
pub open spec fn creation_answer(
    a: Result<(), WriteFailure>,
    r: Result<(), MessagingError>,
    handle: u64,
    offset: int,
) -> bool {
    match a {
        Ok(()) => r is Ok,
        Err(WriteFailure::Conflict { index, conflict }) => if index <= 1 {
            (r matches Err(MessagingError::AlreadyExists { handle: h }) && h == handle) || (
            r matches Err(MessagingError::HandleCollision { handle: h }) && h == handle) || (
            r matches Err(e) && (e is Store || e is InvalidRecord))
        } else if index <= offset {
            r matches Err(MessagingError::InconsistentStore(_))
        } else {
            r matches Err(MessagingError::ExtraConflict { index: i, conflict: c }) && i == index
                - 1 - offset && c == conflict
        },
        Err(WriteFailure::NotCommitted(e)) => r matches Err(MessagingError::NotCommitted(x)) && x
            == e,
        Err(WriteFailure::OutcomeUnknown(e)) => r matches Err(
            MessagingError::OutcomeUnknown { attempted_generation: g, error: x },
        ) && g == 0 && x == e,
    }
}

impl Default for Messenger {
    fn default() -> (m: Self)
        ensures
            m@ == Map::<u64, UnresolvedCommit>::empty(),
    {
        Self::new()
    }
}

impl Messenger {
    /// The batches this messenger has handed to a store's checkpoint
    /// transactions, to create a session, send or receive, oldest first;
    /// each was applied or its commit was attempted.
    pub closed spec fn batches(&self) -> Seq<Seq<WriteModel>> {
        self.log.requested()
    }

    /// What the stores answered to those batches, one answer per batch.
    pub closed spec fn answers(&self) -> Seq<Result<(), WriteFailure>> {
        self.log.answers()
    }

    /// The batches among those that were applied or whose commit was
    /// attempted, oldest first.
    pub closed spec fn applied(&self) -> Seq<Seq<WriteModel>> {
        self.log.applied()
    }

    /// The reads this messenger made through a store's checkpoint reads,
    /// with the store's answers, oldest first.
    pub closed spec fn reads(&self) -> Seq<(Seq<u8>, Result<Option<Vec<u8>>, StorageError>)> {
        self.log.reads()
    }

    pub fn new() -> (m: Self)
        ensures
            m@ == Map::<u64, UnresolvedCommit>::empty(),
            m.batches() == Seq::<Seq<WriteModel>>::empty(),
            m.answers() == Seq::<Result<(), WriteFailure>>::empty(),
            m.applied() == Seq::<Seq<WriteModel>>::empty(),
            m.reads() == Seq::<(Seq<u8>, Result<Option<Vec<u8>>, StorageError>)>::empty(),
    {
        Messenger { unresolved: HashMap::new(), log: StoreLog::new() }
    }

    /// `Some(generation)` when `handle` has a commit with an unknown outcome
    /// pending recovery.
    pub fn unresolved_generation(&self, handle: u64) -> (r: Option<u64>)
        ensures
            r is Some <==> self@.contains_key(handle),
            r matches Some(g) ==> g == self@[handle].attempted_generation,
    {
        match self.unresolved.get(&handle) {
            Some(u) => Some(u.attempted_generation),
            None => None,
        }
    }

    fn require_resolved(&self, handle: u64) -> (r: Result<(), MessagingError>)
        ensures
            r is Err <==> self@.contains_key(handle),
            r matches Err(e) ==> e matches MessagingError::Unresolved { attempted_generation }
                && attempted_generation == self@[handle].attempted_generation,
    {
        match self.unresolved.get(&handle) {
            Some(u) => Err(MessagingError::Unresolved { attempted_generation: u.attempted_generation }),
            None => Ok(()),
        }
    }

    /// The peer identity key registered for `handle`, if any.
    pub fn peer_of(&self, store: &mut EncryptedStore, handle: u64) -> (r: Result<
        Option<[u8; 32]>,
        MessagingError,
    >)
        ensures
            final(store)@ == old(store)@,
            r matches Ok(Some(p)) ==> exists|v: Seq<u8>|
                stored_under(old(store)@, handle_key_spec(handle), v) && #[trigger] decode_handle_spec(v)
                    == Some(p@),
            !(r matches Err(MessagingError::OutcomeUnknown { .. })),
            r matches Err(e) ==> e is InvalidRecord || e is Store,
            one_more(old(store).calls(), final(store).calls()),
            r matches Ok(Some(p)) ==> exists|b: Vec<u8>|
                #[trigger] read_of(
                    old(store)@,
                    encode_utf8(handle_key_spec(handle)),
                    final(store).calls().last(),
                    Ok::<Vec<u8>, StorageError>(b),
                ) && decode_handle_spec(b@) == Some(p@),
    {
        let key = handle_key(handle);
        match store.get(key.as_str()) {
            Ok(bytes) => match decode_handle(bytes.as_slice()) {
                Ok(p) => Ok(Some(p)),
                Err(e) => Err(e),
            },
            Err(StorageError::NotFound) => Ok(None),
            Err(e) => Err(MessagingError::Store(e)),
        }
    }

    fn require_peer(&self, store: &mut EncryptedStore, handle: u64) -> (r: Result<
        [u8; 32],
        MessagingError,
    >)
        ensures
            final(store)@ == old(store)@,
            r matches Ok(p) ==> exists|v: Seq<u8>|
                stored_under(old(store)@, handle_key_spec(handle), v) && #[trigger] decode_handle_spec(v)
                    == Some(p@),
            !(r matches Err(MessagingError::OutcomeUnknown { .. })),
            r matches Err(e) ==> e is InvalidRecord || e is Store || e is NoSession,
            one_more(old(store).calls(), final(store).calls()),
            r matches Ok(p) ==> exists|b: Vec<u8>|
                #[trigger] read_of(
                    old(store)@,
                    encode_utf8(handle_key_spec(handle)),
                    final(store).calls().last(),
                    Ok::<Vec<u8>, StorageError>(b),
                ) && decode_handle_spec(b@) == Some(p@),
    {
        match self.peer_of(store, handle)? {
            Some(p) => Ok(p),
            None => Err(MessagingError::NoSession { handle }),
        }
    }

    /// The initial outbound bytes stored with the session, if any.
    pub fn initial_outbound(&self, store: &mut EncryptedStore, handle: u64) -> (r: Result<
        Option<Vec<u8>>,
        MessagingError,
    >)
        ensures
            final(store)@ == old(store)@,
            r matches Ok(Some(b)) ==> exists|v: Seq<u8>, p: Seq<u8>|
                #![trigger decode_handle_spec(v), handshake_key_spec(p)]
                stored_under(old(store)@, handle_key_spec(handle), v) && decode_handle_spec(v) == Some(p)
                    && stored_under(old(store)@, handshake_key_spec(p), b@),
            !(r matches Err(MessagingError::OutcomeUnknown { .. })),
    {
        let peer = self.require_peer(store, handle)?;
        let key = handshake_key(&peer);
        match store.get(key.as_str()) {
            Ok(bytes) => {
                proof {
                    let v = choose|v: Seq<u8>|
                        stored_under(store@, handle_key_spec(handle), v) && #[trigger] decode_handle_spec(v)
                            == Some(peer@);
                    assert(decode_handle_spec(v) == Some(peer@) && handshake_key_spec(peer@) == key@);
                }
                Ok(Some(bytes))
            },
            Err(StorageError::NotFound) => Ok(None),
            Err(e) => Err(MessagingError::Store(e)),
        }
    }

    /// Loads the session registered under `handle`, bound to `our` and the
    /// registered peer.
    fn load(&self, store: &mut EncryptedStore, our_identity_pk: [u8; 32], handle: u64) -> (r: Result<
        (DurableSession, [u8; 32]),
        MessagingError,
    >)
        ensures
            r matches Ok((s, p)) ==> s@.peer == p@ && s@.our == our_identity_pk@ && s@.status
                == crate::durable::Status::Active,
            r matches Ok((s, p)) ==> registered(old(store)@, handle, p@),
            r matches Ok((s, p)) ==> exists|rec: Seq<u8>| #[trigger] stored_session(rec, s@),
            !(r matches Err(MessagingError::OutcomeUnknown { .. })),
            r matches Err(e) ==> e is InvalidRecord || e is Store || e is NoSession || e is MissingSession
                || e is InvalidSession || e is InconsistentStore,
    {
        let peer = self.require_peer(store, handle)?;
        let binding = SessionBinding { our_identity_pk, peer_identity_pk: peer };
        let mut s1 = S1CheckpointStore::new(store);
        match DurableSession::load(&mut s1, &binding) {
            Ok(Some(session)) => Ok((session, peer)),
            Ok(None) => Err(MessagingError::MissingSession { handle }),
            Err(OpenError::Invalid(e)) => Err(MessagingError::InvalidSession(e)),
            Err(OpenError::Store(e)) => Err(MessagingError::Store(e)),
            Err(_) => Err(MessagingError::InconsistentStore("unexpected load result")),
        }
    }

    /// Maps a commit error; an unknown outcome marks the handle unresolved
    /// with the record that would show whether the commit took effect.
    fn commit_error(
        &mut self,
        handle: u64,
        attempted_generation: u64,
        artifact_key: String,
        e: CommitError,
    ) -> (r: MessagingError)
        ensures
            after_commit(
                old(self)@,
                final(self)@,
                handle,
                e is OutcomeUnknown,
                attempted_generation,
                artifact_key@,
            ),
            final(self).batches() == old(self).batches(),
            e is OutcomeUnknown ==> (r matches MessagingError::OutcomeUnknown {
                attempted_generation: g,
                ..
            } && g == attempted_generation),
            e matches CommitError::Conflict(c) ==> (r matches MessagingError::Conflict(x) && x == c),
            e matches CommitError::SideConflict { conflict, .. } ==> (r matches MessagingError::Conflict(
                x,
            ) && x == conflict),
            e is NotCommitted ==> r is NotCommitted,
            e matches CommitError::SideWrite(x) ==> (r matches MessagingError::SideWrite(y) && x == y),
    {
        match e {
            CommitError::OutcomeUnknown(error) => {
                let ghost key = artifact_key@;
                self.unresolved.insert(handle, UnresolvedCommit { attempted_generation, artifact_key });
                proof {
                    assert(final(self)@.remove(handle) =~= old(self)@.remove(handle));
                }
                MessagingError::OutcomeUnknown { attempted_generation, error }
            },
            CommitError::Conflict(c) => MessagingError::Conflict(c),
            CommitError::SideConflict { conflict, .. } => MessagingError::Conflict(conflict),
            CommitError::NotCommitted(e) => MessagingError::NotCommitted(e),
            CommitError::SideWrite(e) => MessagingError::SideWrite(e),
            CommitError::Unresolved { .. } => MessagingError::InconsistentStore("unexpected commit state"),
            CommitError::Conflicted => MessagingError::InconsistentStore("unexpected commit state"),
            CommitError::StaleTransition => MessagingError::InconsistentStore("unexpected commit state"),
        }
    }
}

// ── Keys fit the store ────────────────────────────────────────────────────────

/// The UTF-8 encoding of an ASCII prefix is its own bytes.
proof fn lemma_encode_ascii_prefix(a: Seq<char>, b: Seq<char>)
    requires
        vstd::utf8::is_ascii_chars(a),
    ensures
        encode_utf8(a + b).len() >= a.len(),
        forall|i: int| 0 <= i < a.len() ==> encode_utf8(a + b)[i] == a[i] as u8,
    decreases a.len(),
{
    if a.len() > 0 {
        let t = a.drop_first();
        assert(vstd::utf8::is_ascii_chars(t)) by {
            assert forall|i: int| 0 <= i < t.len() implies '\0' <= #[trigger] t[i] <= '\u{7f}' by {
                assert(t[i] == a[i + 1]);
            }
        }
        lemma_encode_ascii_prefix(t, b);
        assert((a + b).drop_first() =~= t + b);
        assert((a + b)[0] == a[0]);
        let c0 = a[0] as u32;
        assert('\0' <= a[0] <= '\u{7f}');
        assert(vstd::utf8::has_width_1_encoding(c0));
        assert(c0 as u8 == vstd::utf8::leading_byte_width_1(c0)) by (bit_vector)
            requires
                vstd::utf8::has_width_1_encoding(c0),
        ;
        assert forall|i: int| 0 <= i < a.len() implies encode_utf8(a + b)[i] == a[i] as u8 by {
            if i > 0 {
                assert(a[i] == t[i - 1]);
            }
        }
    }
}

/// A key that begins with an ASCII literal differing from `session:` in
/// one of its first eight characters is not in the session namespace.
proof fn lemma_not_reserved(lit: Seq<char>, rest: Seq<char>, i: int)
    requires
        vstd::utf8::is_ascii_chars(lit),
        lit.len() >= 8,
        0 <= i < 8,
        lit[i] as u8 != crate::durable::session_namespace_spec()[i],
    ensures
        !crate::durable::is_reserved_key(encode_utf8(lit + rest)),
{
    lemma_encode_ascii_prefix(lit, rest);
    let e = encode_utf8(lit + rest);
    assert(e.subrange(0, 8)[i] == e[i]);
}

proof fn lemma_keys_fit(handle: u64, peer: Seq<u8>, id: Seq<u8>, cid: Seq<u8>)
    requires
        peer.len() == 32,
        id.len() == 32,
        cid.len() <= MAX_CLIENT_MESSAGE_ID_LEN,
    ensures
        encode_utf8(handle_key_spec(handle)).len() <= aead_max_plaintext(),
        encode_utf8(handshake_key_spec(peer)).len() <= aead_max_plaintext(),
        encode_utf8(outbox_key_spec(peer, id)).len() <= aead_max_plaintext(),
        encode_utf8(inbox_key_spec(peer, id)).len() <= aead_max_plaintext(),
        encode_utf8(seen_key_spec(peer, id)).len() <= aead_max_plaintext(),
        encode_utf8(sendid_key_spec(peer, cid)).len() <= aead_max_plaintext(),
{
    reveal_strlit("handle:v1/");
    reveal_strlit("hsout:v1/");
    reveal_strlit("outbox:v1/");
    reveal_strlit("inbox:v1/");
    reveal_strlit("seen:v1/");
    reveal_strlit("sendid:v1/");
    reveal_strlit("/");
    lemma_hex_width_len(handle as nat, 16);
    lemma_hex_len(peer);
    lemma_hex_len(id);
    lemma_hex_len(cid);
    lemma_key_fits(handle_key_spec(handle));
    lemma_key_fits(handshake_key_spec(peer));
    lemma_key_fits(outbox_key_spec(peer, id));
    lemma_key_fits(inbox_key_spec(peer, id));
    lemma_key_fits(seen_key_spec(peer, id));
    lemma_key_fits(sendid_key_spec(peer, cid));
}

// ── Ordering pending messages ─────────────────────────────────────────────────

pub open spec fn outgoing_sorted(s: Seq<OutgoingMessage>) -> bool {
    forall|i: int, j: int| 0 <= i < j < s.len() ==> s[i].generation <= s[j].generation
}

pub open spec fn incoming_sorted(s: Seq<IncomingMessage>) -> bool {
    forall|i: int, j: int| 0 <= i < j < s.len() ==> s[i].generation <= s[j].generation
}

/// Orders outgoing messages by the generation their send committed.
fn sort_outgoing(v: Vec<OutgoingMessage>) -> (out: Vec<OutgoingMessage>)
    ensures
        outgoing_sorted(out@),
        out@.to_multiset() == v@.to_multiset(),
{
    broadcast use vstd::seq_lib::group_to_multiset_ensures;

    let mut rest = v;
    let mut out: Vec<OutgoingMessage> = Vec::new();
    while rest.len() > 0
        invariant
            outgoing_sorted(out@),
            out@.to_multiset().add(rest@.to_multiset()) == v@.to_multiset(),
        decreases rest@.len(),
    {
        let ghost before = rest@;
        let x = rest.pop().unwrap();
        assert(before =~= rest@.push(x));
        let mut p: usize = 0;
        while p < out.len() && out[p].generation <= x.generation
            invariant
                p <= out@.len(),
                forall|j: int| 0 <= j < p ==> (#[trigger] out@[j]).generation <= x.generation,
            decreases out@.len() - p,
        {
            p = p + 1;
        }
        let ghost old_out = out@;
        out.insert(p, x);
        proof {
            vstd::seq_lib::to_multiset_insert(old_out, p as int, x);
            vstd::seq_lib::to_multiset_build(rest@, x);
            assert(out@.to_multiset() =~= old_out.to_multiset().insert(x));
            assert(before.to_multiset() =~= rest@.to_multiset().insert(x));
            assert(out@.to_multiset().add(rest@.to_multiset()) =~= old_out.to_multiset().add(
                before.to_multiset(),
            ));
            assert forall|i: int, j: int| 0 <= i < j < out@.len() implies out@[i].generation
                <= out@[j].generation by {
                if j < p {
                } else if j == p {
                } else if i < p {
                    assert(out@[j] == old_out[j - 1]);
                    if p < old_out.len() {
                        assert(old_out[p as int].generation > x.generation);
                    }
                } else if i == p {
                    assert(out@[j] == old_out[j - 1]);
                } else {
                    assert(out@[i] == old_out[i - 1] && out@[j] == old_out[j - 1]);
                }
            }
        }
    }
    proof {
        assert(rest@.to_multiset() =~= vstd::multiset::Multiset::empty());
    }
    out
}

/// Orders incoming messages by the generation their receipt committed.
fn sort_incoming(v: Vec<IncomingMessage>) -> (out: Vec<IncomingMessage>)
    ensures
        incoming_sorted(out@),
        out@.to_multiset() == v@.to_multiset(),
{
    broadcast use vstd::seq_lib::group_to_multiset_ensures;

    let mut rest = v;
    let mut out: Vec<IncomingMessage> = Vec::new();
    while rest.len() > 0
        invariant
            incoming_sorted(out@),
            out@.to_multiset().add(rest@.to_multiset()) == v@.to_multiset(),
        decreases rest@.len(),
    {
        let ghost before = rest@;
        let x = rest.pop().unwrap();
        assert(before =~= rest@.push(x));
        let mut p: usize = 0;
        while p < out.len() && out[p].generation <= x.generation
            invariant
                p <= out@.len(),
                forall|j: int| 0 <= j < p ==> (#[trigger] out@[j]).generation <= x.generation,
            decreases out@.len() - p,
        {
            p = p + 1;
        }
        let ghost old_out = out@;
        out.insert(p, x);
        proof {
            vstd::seq_lib::to_multiset_insert(old_out, p as int, x);
            vstd::seq_lib::to_multiset_build(rest@, x);
            assert(out@.to_multiset() =~= old_out.to_multiset().insert(x));
            assert(before.to_multiset() =~= rest@.to_multiset().insert(x));
            assert(out@.to_multiset().add(rest@.to_multiset()) =~= old_out.to_multiset().add(
                before.to_multiset(),
            ));
            assert forall|i: int, j: int| 0 <= i < j < out@.len() implies out@[i].generation
                <= out@[j].generation by {
                if j < p {
                } else if j == p {
                } else if i < p {
                    assert(out@[j] == old_out[j - 1]);
                    if p < old_out.len() {
                        assert(old_out[p as int].generation > x.generation);
                    }
                } else if i == p {
                    assert(out@[j] == old_out[j - 1]);
                } else {
                    assert(out@[i] == old_out[i - 1] && out@[j] == old_out[j - 1]);
                }
            }
        }
    }
    proof {
        assert(rest@.to_multiset() =~= vstd::multiset::Multiset::empty());
    }
    out
}

// ── Operations ────────────────────────────────────────────────────────────────

impl Messenger {
    /// Stores a new session under `new.handle`, together with the handle
    /// record, the initial outbound bytes and `new.extra`, in one
    /// transaction. Refuses without writing anything if the peer already has
    /// a session record (valid or not) or the handle is taken.
    pub fn create_session(
        &mut self,
        store: &mut EncryptedStore,
        our_identity_pk: [u8; 32],
        new: NewSession,
    ) -> (r: Result<(), MessagingError>)
        requires
            new.session.ratchet.wf(),
        ensures
            r is Ok ==> final(self)@ == old(self)@.remove(new.handle),
            r matches Err(MessagingError::OutcomeUnknown { attempted_generation, .. })
                ==> attempted_generation == 0 && after_commit(
                old(self)@,
                final(self)@,
                new.handle,
                true,
                0,
                handle_key_spec(new.handle),
            ),
            r is Err && !(r matches Err(MessagingError::OutcomeUnknown { .. })) ==> final(self)@
                == old(self)@,
            crate::session_checkpoint::session_encode_spec(
                new.session.ratchet@,
                new.session.ad@,
                new.session.peer_identity_pk@,
                new.role,
                our_identity_pk@,
                0,
            ) matches Err(e) ==> (r matches Err(MessagingError::InvalidSession(x)) && x == e),
            crate::session_checkpoint::session_encode_spec(
                new.session.ratchet@,
                new.session.ad@,
                new.session.peer_identity_pk@,
                new.role,
                our_identity_pk@,
                0,
            ) matches Ok(rec) ==> ((r matches Err(MessagingError::SideWrite(_)))
                || final(self).batches() == old(self).batches().push(
                session_creation_batch(
                    new.handle,
                    new.session.peer_identity_pk@,
                    rec,
                    opt_bytes(new.initial_outbound),
                    new.extra@,
                ),
            )),
            crate::session_checkpoint::session_encode_spec(
                new.session.ratchet@,
                new.session.ad@,
                new.session.peer_identity_pk@,
                new.role,
                our_identity_pk@,
                0,
            ) is Err || (r matches Err(MessagingError::SideWrite(_))) ==> final(self).batches()
                == old(self).batches(),
            crate::session_checkpoint::session_encode_spec(
                new.session.ratchet@,
                new.session.ad@,
                new.session.peer_identity_pk@,
                new.role,
                our_identity_pk@,
                0,
            ) is Ok && !(r matches Err(MessagingError::SideWrite(_))) ==> one_more(
                old(self).answers(),
                final(self).answers(),
            ) && creation_answer(
                final(self).answers().last(),
                r,
                new.handle,
                if new.initial_outbound is Some {
                    2int
                } else {
                    1int
                },
            ),
            crate::session_checkpoint::session_encode_spec(
                new.session.ratchet@,
                new.session.ad@,
                new.session.peer_identity_pk@,
                new.role,
                our_identity_pk@,
                0,
            ) is Err || (r matches Err(MessagingError::SideWrite(_))) ==> final(self).answers()
                == old(self).answers(),
            !(r is Ok || (r matches Err(MessagingError::OutcomeUnknown { .. }))) ==> final(self).applied()
                == old(self).applied(),
    {
        let NewSession { handle, session, role, initial_outbound, extra } = new;
        let peer = session.peer_identity_pk;
        proof {
            lemma_keys_fit(handle, peer@, peer@, Seq::empty());
            reveal_strlit("handle:v1/");
            reveal_strlit("hsout:v1/");
            lemma_not_reserved("handle:v1/"@, hex_width_spec(handle as nat, 16), 0);
            lemma_not_reserved("hsout:v1/"@, hex_spec(peer@), 0);
        }
        let mut side: Vec<SideWrite> = Vec::new();
        match SideWrite::insert(handle_key(handle), encode_handle(&peer)) {
            Ok(w) => side.push(w),
            Err(e) => {
                return Err(MessagingError::SideWrite(e));
            },
        }
        match initial_outbound {
            Some(bytes) => match SideWrite::insert(handshake_key(&peer), bytes) {
                Ok(w) => side.push(w),
                Err(e) => {
                    return Err(MessagingError::SideWrite(e));
                },
            },
            None => {},
        }
        let offset = side.len();
        let ghost prefix = side@;
        let mut extra = extra;
        side.append(&mut extra);
        let ghost mut handed: Seq<Seq<WriteModel>> = Seq::empty();
        let ghost mut answered: Seq<Result<(), WriteFailure>> = Seq::empty();
        let result = {
            let mut s1 = S1CheckpointStore::new(store);
            let r = DurableSession::create_with(
                &mut s1,
                session,
                role,
                our_identity_pk,
                side.as_slice(),
            );
            proof {
                handed = s1.requested();
                answered = s1.answers();
            }
            self.log.absorb(&s1);
            r
        };
        proof {
            if answered.len() > 0 {
                assert(answered =~= seq![answered[0]]);
                assert(old(self).answers() + answered =~= old(self).answers().push(answered[0]));
                lemma_one_more(old(self).answers(), answered[0]);
            } else {
                assert(old(self).answers() + answered =~= old(self).answers());
            }
            assert(side@ == prefix + new.extra@);
            assert(side_model(side@) =~= side_model(prefix) + side_model(new.extra@));
            let handle_write = WriteModel {
                key: encode_utf8(handle_key_spec(handle)),
                expect: ExpectModel::Absent,
                value: handle_record_spec(peer@),
            };
            let outbound_writes = match opt_bytes(new.initial_outbound) {
                Some(b) => seq![
                    WriteModel {
                        key: encode_utf8(handshake_key_spec(peer@)),
                        expect: ExpectModel::Absent,
                        value: b,
                    },
                ],
                None => Seq::empty(),
            };
            assert(side_model(prefix) =~= seq![handle_write] + outbound_writes);
            let before = old(self).log.requested();
            if handed.len() > 0 {
                let rec = crate::session_checkpoint::session_encode_spec(
                    new.session.ratchet@,
                    new.session.ad@,
                    peer@,
                    role,
                    our_identity_pk@,
                    0,
                )->Ok_0;
                let b = crate::durable::creation_batch(peer@, rec, side@);
                assert(b =~= session_creation_batch(
                    handle,
                    peer@,
                    rec,
                    opt_bytes(new.initial_outbound),
                    new.extra@,
                ));
                assert(handed =~= seq![b]);
                assert(self.log.requested() =~= before.push(b));
            } else {
                assert(self.log.requested() =~= before);
            }
        }
        match result {
            Ok(_) => {
                self.unresolved.remove(&handle);
                Ok(())
            },
            Err(OpenError::AlreadyExists) => Err(classify_taken(store, handle, &peer)?),
            Err(OpenError::SideConflict { index, conflict }) => {
                if index == 0 {
                    Err(classify_taken(store, handle, &peer)?)
                } else if index < offset {
                    Err(
                        MessagingError::InconsistentStore(
                            "initial outbound record exists without a session",
                        ),
                    )
                } else {
                    Err(MessagingError::ExtraConflict { index: index - offset, conflict })
                }
            },
            Err(OpenError::Invalid(e)) => Err(MessagingError::InvalidSession(e)),
            Err(OpenError::Store(e)) => Err(MessagingError::Store(e)),
            Err(OpenError::NotCommitted(e)) => Err(MessagingError::NotCommitted(e)),
            Err(OpenError::OutcomeUnknown(error)) => {
                self.unresolved.insert(
                    handle,
                    UnresolvedCommit { attempted_generation: 0, artifact_key: handle_key(handle) },
                );
                proof {
                    assert(final(self)@.remove(handle) =~= old(self)@.remove(handle));
                }
                Err(MessagingError::OutcomeUnknown { attempted_generation: 0, error })
            },
            Err(OpenError::SideWrite(e)) => Err(MessagingError::SideWrite(e)),
        }
    }

    /// Encrypts `plaintext` as the logical message `client_message_id` and
    /// commits the new session state with its outbox and send-id records;
    /// returns the message only after that commit. A logical message sent
    /// before is reported as it stands, and nothing is encrypted.
    pub fn send(
        &mut self,
        store: &mut EncryptedStore,
        our_identity_pk: [u8; 32],
        handle: u64,
        client_message_id: &[u8],
        plaintext: &[u8],
    ) -> (r: Result<SendOutcome, MessagingError>)
        requires
            plaintext@.len() + 80 <= u32::MAX,
        ensures
            old(self)@.contains_key(handle) ==> final(self)@ == old(self)@ && (r matches Err(
                MessagingError::Unresolved { attempted_generation },
            ) && attempted_generation == old(self)@[handle].attempted_generation),
            !old(self)@.contains_key(handle) && (client_message_id@.len() == 0
                || client_message_id@.len() > MAX_CLIENT_MESSAGE_ID_LEN) ==> (r matches Err(
                MessagingError::InvalidClientMessageId,
            )),
            r matches Ok(SendOutcome::Sent(m)) ==> m.client_message_id@ == client_message_id@
                && m.message_id@ == message_id_spec(m.wire@) && m.wire@.len() == plaintext@.len()
                + 80,
            r matches Ok(SendOutcome::Sent(msg)) ==> sent_by_session(
                old(store)@,
                our_identity_pk@,
                handle,
                plaintext@,
                msg.wire@,
                msg.generation,
            ),
            r matches Ok(SendOutcome::AlreadyPending(m)) ==> m.message_id@ == message_id_spec(
                m.wire@,
            ),
            r is Ok ==> exists|p: Seq<u8>|
                #[trigger] registered(old(store)@, handle, p) && final(self).reads().len()
                    > old(self).reads().len() && final(self).reads()[old(self).reads().len() as int].0
                    == encode_utf8(sendid_key_spec(p, client_message_id@)),
            r is Ok && final(self).reads()[old(self).reads().len() as int].1 == Ok::<
                Option<Vec<u8>>,
                StorageError,
            >(None) ==> r matches Ok(SendOutcome::Sent(_)),
            r is Ok && final(self).reads()[old(self).reads().len() as int].1 is Ok && final(self).reads()[old(self).reads().len() as int].1->Ok_0 is Some
                ==> !(r matches Ok(SendOutcome::Sent(_))) && final(self).batches() == old(self).batches(),
            r is Ok && final(self).reads()[old(self).reads().len() as int].1 is Ok && final(self).reads()[old(self).reads().len() as int].1->Ok_0 is Some
                && decode_id_record_spec(
                sendid_magic_spec(),
                final(self).reads()[old(self).reads().len() as int].1->Ok_0->Some_0@,
            ) is Some && final(self).reads().len() > old(self).reads().len() + 1 && final(self).reads()[old(self).reads().len() + 1int].1 is Ok
                && final(self).reads()[old(self).reads().len() + 1int].1->Ok_0 is Some ==> (r matches Ok(
                SendOutcome::AlreadyPending(m),
            ) && decode_outbox_spec(
                final(self).reads()[old(self).reads().len() + 1int].1->Ok_0->Some_0@,
            ) == Some((m.generation, m.message_id@, m.client_message_id@, m.wire@))),
            r matches Err(MessagingError::OutcomeUnknown { attempted_generation, .. })
                ==> final(self)@.contains_key(handle) && final(self)@[handle].attempted_generation
                == attempted_generation && final(self)@.remove(handle) == old(self)@.remove(handle),
            !(r matches Err(MessagingError::OutcomeUnknown { .. })) ==> final(self)@ == old(self)@,
            r matches Ok(SendOutcome::Sent(msg)) ==> exists|rec: Seq<u8>, m: DurableModel|
                #[trigger] stored_session(rec, m) && m.our == our_identity_pk@ && registered(
                    old(store)@,
                    handle,
                    m.peer,
                ) && final(self).batches() == old(self).batches().push(
                    send_batch(
                        m,
                        msg.generation,
                        msg.message_id@,
                        msg.client_message_id@,
                        msg.wire@,
                    ),
                ),
            (r matches Err(MessagingError::OutcomeUnknown { .. })) || (r matches Err(
                MessagingError::Conflict(_),
            )) || (r matches Err(MessagingError::NotCommitted(_))) ==> exists|
                rec: Seq<u8>,
                m: DurableModel,
                id: Seq<u8>,
                wire: Seq<u8>,
            |
                #![trigger stored_session(rec, m), send_batch(m, (m.generation + 1) as u64, id, client_message_id@, wire)]
                stored_session(rec, m) && m.our == our_identity_pk@ && registered(
                    old(store)@,
                    handle,
                    m.peer,
                ) && final(self).batches() == old(self).batches().push(
                    send_batch(m, (m.generation + 1) as u64, id, client_message_id@, wire),
                ),
            !(r matches Ok(SendOutcome::Sent(_))) && !(r matches Err(
                MessagingError::OutcomeUnknown { .. },
            )) && !(r matches Err(MessagingError::Conflict(_))) && !(r matches Err(
                MessagingError::NotCommitted(_),
            )) ==> final(self).batches() == old(self).batches(),
    {
        self.require_resolved(handle)?;
        if client_message_id.len() == 0 || client_message_id.len() > MAX_CLIENT_MESSAGE_ID_LEN {
            return Err(MessagingError::InvalidClientMessageId);
        }
        let (mut session, peer) = self.load(store, our_identity_pk, handle)?;
        let ghost m0 = session@;
        let ghost rec = choose|rec: Seq<u8>| #[trigger] stored_session(rec, m0);
        let index_key = sendid_key(&peer, client_message_id);
        let prior = {
            let mut s1 = S1CheckpointStore::new(store);
            let o = read_prior_send(&mut s1, &peer, index_key.as_str());
            self.log.absorb(&s1);
            o
        };
        proof {
            assert(self.log.reads().subrange(0, old(self).reads().len() as int) =~= old(self).reads());
        }
        match prior? {
            Some(outcome) => {
                return Ok(outcome);
            },
            None => {},
        }
        let staged = match session.stage_encrypt(plaintext) {
            Ok(st) => st,
            Err(e) => {
                return Err(stage_error(e));
            },
        };
        let generation = staged.generation();
        let (header, ciphertext) = staged.output();
        let ghost hdr = *header;
        let ghost ctv = ciphertext@;
        let mut wire: Vec<u8> = Vec::new();
        let hb = header.to_bytes();
        append_bytes(&mut wire, hb.as_slice());
        append_bytes(&mut wire, ciphertext.as_slice());
        let id = message_id(wire.as_slice());
        let key = outbox_key(&peer, &id);
        proof {
            lemma_keys_fit(handle, peer@, id@, client_message_id@);
        }
        let outbox = match SideWrite::insert(
            key.clone(),
            encode_outbox(generation, &id, client_message_id, wire.as_slice()),
        ) {
            Ok(w) => w,
            Err(e) => {
                return Err(MessagingError::SideWrite(e));
            },
        };
        let s = sendid_magic();
        let index = match SideWrite::insert(index_key, encode_id_record(&s, &id)) {
            Ok(w) => w,
            Err(e) => {
                return Err(MessagingError::SideWrite(e));
            },
        };
        let side = vec![outbox, index];
        let ghost staged_model = staged@;
        let ghost mut handed: Seq<Seq<WriteModel>> = Seq::empty();
        let committed = {
            let mut s1 = S1CheckpointStore::new(store);
            let r = session.commit_with(&mut s1, staged, side.as_slice());
            proof {
                handed = s1.requested();
            }
            self.log.absorb(&s1);
            r
        };
        proof {
            let before = old(self).log.requested();
            if handed.len() > 0 {
                let b = crate::durable::commit_batch(m0, staged_model, side@);
                assert(b =~= send_batch(m0, generation, id@, client_message_id@, wire@));
                assert(handed =~= seq![b]);
                assert(self.log.requested() =~= before.push(b));
            } else {
                assert(self.log.requested() =~= before);
            }
        }
        match committed {
            Ok(_) => {
                let msg = OutgoingMessage {
                    message_id: id,
                    client_message_id: bytes_to_vec(client_message_id),
                    generation,
                    wire,
                };
                proof {
                    assert(sent_from(rec, m0, plaintext@, msg.wire@, msg.generation, hdr, ctv));
                    assert(m0.our == our_identity_pk@);
                    assert(registered(old(store)@, handle, m0.peer));
                    assert(sent_by_session(
                        old(store)@,
                        our_identity_pk@,
                        handle,
                        plaintext@,
                        msg.wire@,
                        msg.generation,
                    ));
                }
                Ok(SendOutcome::Sent(msg))
            },
            Err(e) => Err(self.commit_error(handle, generation, key, e)),
        }
    }

    /// Decrypts `wire` and commits the new session state with a pending
    /// inbox record; returns the plaintext only after that commit. A message
    /// accepted before is reported as a duplicate without touching the
    /// ratchet.
    #[verifier::spinoff_prover]
    pub fn receive(
        &mut self,
        store: &mut EncryptedStore,
        our_identity_pk: [u8; 32],
        handle: u64,
        wire: &[u8],
    ) -> (r: Result<Received, MessagingError>)
        ensures
            old(self)@.contains_key(handle) ==> final(self)@ == old(self)@ && (r matches Err(
                MessagingError::Unresolved { attempted_generation },
            ) && attempted_generation == old(self)@[handle].attempted_generation),
            !old(self)@.contains_key(handle) && wire@.len() < HEADER_SIZE ==> (r matches Err(
                MessagingError::MalformedMessage,
            )),
            r matches Ok(Received::Accepted(m)) ==> m.message_id@ == message_id_spec(wire@),
            r matches Ok(Received::Accepted(m)) ==> received_by_session(
                old(store)@,
                our_identity_pk@,
                handle,
                wire@,
                m.plaintext@,
                m.generation,
            ),
            r matches Ok(Received::Duplicate { message_id, .. }) ==> message_id@ == message_id_spec(
                wire@,
            ),
            r is Ok ==> exists|p: Seq<u8>|
                #[trigger] registered(old(store)@, handle, p) && final(self).reads().len()
                    > old(self).reads().len() && final(self).reads()[old(self).reads().len() as int].0
                    == encode_utf8(inbox_key_spec(p, message_id_spec(wire@))) && (final(self).reads().len()
                    > old(self).reads().len() + 1 && final(self).reads()[old(self).reads().len() as int].1
                    == Ok::<Option<Vec<u8>>, StorageError>(None) ==> final(self).reads()[old(self).reads().len() + 1int].0 == encode_utf8(seen_key_spec(p, message_id_spec(wire@)))),
            r is Ok && final(self).reads()[old(self).reads().len() as int].1 is Ok && final(self).reads()[old(self).reads().len() as int].1->Ok_0 is Some ==> (r matches Ok(
                Received::Duplicate { message_id, undelivered: Some(m) },
            ) && decode_inbox_spec(
                final(self).reads()[old(self).reads().len() as int].1->Ok_0->Some_0@,
            ) == Some((m.generation, message_id@, m.plaintext@)) && final(self).batches() == old(self).batches()),
            r is Ok && final(self).reads()[old(self).reads().len() as int].1 == Ok::<
                Option<Vec<u8>>,
                StorageError,
            >(None) && final(self).reads()[old(self).reads().len() + 1int].1 is Ok && final(self).reads()[old(self).reads().len() + 1int].1->Ok_0 is Some ==> (r matches Ok(
                Received::Duplicate { undelivered: None, .. },
            ) && final(self).batches() == old(self).batches()),
            r matches Ok(Received::Accepted(_)) ==> final(self).reads()[old(self).reads().len() as int].1
                == Ok::<Option<Vec<u8>>, StorageError>(None) && final(self).reads()[old(self).reads().len() + 1int].1 == Ok::<Option<Vec<u8>>, StorageError>(None),
            r matches Err(MessagingError::OutcomeUnknown { attempted_generation, .. })
                ==> final(self)@.contains_key(handle) && final(self)@[handle].attempted_generation
                == attempted_generation && final(self)@.remove(handle) == old(self)@.remove(handle),
            !(r matches Err(MessagingError::OutcomeUnknown { .. })) ==> final(self)@ == old(self)@,
            r matches Ok(Received::Accepted(msg)) ==> receipt_handed(
                old(store)@,
                our_identity_pk@,
                handle,
                wire@,
                msg.plaintext@,
                msg.generation,
                old(self).batches(),
                final(self).batches(),
            ),
            (r matches Err(MessagingError::OutcomeUnknown { .. })) || (r matches Err(
                MessagingError::Conflict(_),
            )) || (r matches Err(MessagingError::NotCommitted(_))) ==> exists|
                rec: Seq<u8>,
                m: DurableModel,
                h: Header,
                dhs: Seq<u8>,
                plaintext: Seq<u8>,
            |
                #[trigger] received_from(rec, m, wire@, plaintext, (m.generation + 1) as u64, h, dhs)
                    && m.our == our_identity_pk@ && registered(old(store)@, handle, m.peer)
                    && final(self).batches() == old(self).batches().push(
                    receive_batch(
                        m,
                        receive_spec(
                            m.ratchet,
                            h,
                            wire@.subrange(40, wire@.len() as int),
                            m.ad,
                            dhs,
                        ).0,
                        (m.generation + 1) as u64,
                        message_id_spec(wire@),
                        plaintext,
                    ),
                ),
            final(self).batches() == old(self).batches() || exists|p: Seq<u8>, g: u64|
                #[trigger] receipt_handed(
                    old(store)@,
                    our_identity_pk@,
                    handle,
                    wire@,
                    p,
                    g,
                    old(self).batches(),
                    final(self).batches(),
                ),
            (r matches Err(MessagingError::Ratchet(_))) || (r matches Err(
                MessagingError::MalformedMessage,
            )) || (r matches Err(MessagingError::Checkpoint(_))) || (r matches Err(
                MessagingError::Unresolved { .. },
            )) ==> final(self).batches() == old(self).batches(),
    {
        self.require_resolved(handle)?;
        if wire.len() < HEADER_SIZE {
            return Err(MessagingError::MalformedMessage);
        }
        let header = match Header::from_bytes(&wire[0..HEADER_SIZE]) {
            Ok(h) => h,
            Err(_) => {
                return Err(MessagingError::MalformedMessage);
            },
        };
        let ciphertext = &wire[HEADER_SIZE..wire.len()];
        let id = message_id(wire);
        let (mut session, peer) = self.load(store, our_identity_pk, handle)?;
        let ghost m0 = session@;
        let ghost rec = choose|rec: Seq<u8>| #[trigger] stored_session(rec, m0);
        let key = inbox_key(&peer, &id);
        let seen = seen_key(&peer, &id);
        let duplicate = {
            let mut s1 = S1CheckpointStore::new(store);
            let d = read_duplicate(&mut s1, key.as_str(), seen.as_str(), id);
            self.log.absorb(&s1);
            d
        };
        proof {
            assert(self.log.reads().subrange(0, old(self).reads().len() as int) =~= old(self).reads());
        }
        match duplicate? {
            Some(d) => {
                return Ok(d);
            },
            None => {},
        }
        let staged = match session.stage_decrypt(&header, ciphertext) {
            Ok(st) => st,
            Err(e) => {
                return Err(stage_error(e));
            },
        };
        let generation = staged.generation();
        let ghost st = staged@;
        let ghost out = staged.output_spec();
        if staged.output().len() as u64 > 0xffff_ffffu64 {
            return Err(MessagingError::MalformedMessage);
        }
        let record = encode_inbox(generation, &id, staged.output().as_slice());
        proof {
            lemma_keys_fit(handle, peer@, id@, Seq::empty());
        }
        let inbox = match SideWrite::insert(key.clone(), record) {
            Ok(w) => w,
            Err(e) => {
                return Err(MessagingError::SideWrite(e));
            },
        };
        let side = vec![inbox];
        let ghost staged_model = staged@;
        let ghost mut handed: Seq<Seq<WriteModel>> = Seq::empty();
        let committed = {
            let mut s1 = S1CheckpointStore::new(store);
            let r = session.commit_with(&mut s1, staged, side.as_slice());
            proof {
                handed = s1.requested();
            }
            self.log.absorb(&s1);
            r
        };
        proof {
            let before = old(self).log.requested();
            if handed.len() > 0 {
                let b = crate::durable::commit_batch(m0, staged_model, side@);
                assert(header_bytes(header) == wire@.subrange(0, 40));
                assert(ciphertext@ == wire@.subrange(40, wire@.len() as int));
                assert(received_from(rec, m0, wire@, out@, generation, header, st.ratchet.dhs));
                assert(b =~= receive_batch(
                    m0,
                    receive_spec(m0.ratchet, header, ciphertext@, m0.ad, st.ratchet.dhs).0,
                    generation,
                    id@,
                    out@,
                ));
                assert(handed =~= seq![b]);
                assert(self.log.requested() =~= before.push(b));
            } else {
                assert(self.log.requested() =~= before);
            }
        }
        match committed {
            Ok(plaintext) => {
                let m = IncomingMessage { message_id: id, generation, plaintext };
                proof {
                    assert(header_bytes(header) == wire@.subrange(0, 40));
                    assert(ciphertext@ == wire@.subrange(40, wire@.len() as int));
                    assert(received_from(rec, m0, wire@, m.plaintext@, m.generation, header, st.ratchet.dhs));
                    assert(self.batches() == old(self).batches().push(
                        receive_batch(
                            m0,
                            receive_spec(
                                m0.ratchet,
                                header,
                                wire@.subrange(40, wire@.len() as int),
                                m0.ad,
                                st.ratchet.dhs,
                            ).0,
                            m.generation,
                            m.message_id@,
                            m.plaintext@,
                        ),
                    ));
                    assert(m0.our == our_identity_pk@);
                    assert(registered(old(store)@, handle, m0.peer));
                    assert(receipt_handed(
                        old(store)@,
                        our_identity_pk@,
                        handle,
                        wire@,
                        m.plaintext@,
                        m.generation,
                        old(self).batches(),
                        self.batches(),
                    ));
                    assert(received_by_session(
                        old(store)@,
                        our_identity_pk@,
                        handle,
                        wire@,
                        m.plaintext@,
                        m.generation,
                    ));
                }
                Ok(Received::Accepted(m))
            },
            Err(CommitError::SideConflict { conflict: Conflict::RecordExists, .. }) => {
                // Accepted by another instance between the check above and
                // this commit.
                proof {
                    assert(receipt_handed(
                        old(store)@,
                        our_identity_pk@,
                        handle,
                        wire@,
                        out@,
                        generation,
                        old(self).batches(),
                        self.batches(),
                    ));
                }
                let duplicate = {
                    let mut s1 = S1CheckpointStore::new(store);
                    let d = read_duplicate(&mut s1, key.as_str(), seen.as_str(), id);
                    self.log.absorb(&s1);
                    d
                };
                match duplicate? {
                    Some(d) => Ok(d),
                    None => Err(MessagingError::InconsistentStore("inbox record vanished")),
                }
            },
            Err(e) => Err(self.commit_error(handle, generation, key, e)),
        }
    }

    /// Every committed outgoing message not yet acknowledged or abandoned,
    /// in the order it was sent, with its stored bytes.
    pub fn pending_outgoing(&self, store: &mut EncryptedStore, handle: u64) -> (r: Result<
        Vec<OutgoingMessage>,
        MessagingError,
    >)
        ensures
            final(store)@ == old(store)@,
            r matches Ok(v) ==> outgoing_sorted(v@) && forall|i: int|
                0 <= i < v@.len() ==> message_id_spec((#[trigger] v@[i]).wire@) == v@[i].message_id@,
            r matches Ok(v) ==> forall|i: int| 0 <= i < v@.len() ==> #[trigger] in_outbox(old(store)@, handle, v@[i]),
            r matches Ok(v) ==> pending_outgoing_run(
                old(store)@,
                handle,
                final(store).calls(),
                old(store).calls().len() as int,
                v@,
            ),
            !(r matches Err(MessagingError::OutcomeUnknown { .. })),
    {
        let ghost base = old(store).calls().len() as int;
        proof {
            assert(old(store).calls().subrange(0, base) =~= old(store).calls());
        }
        let peer = self.require_peer(store, handle)?;
        let ghost calls1 = store.calls();
        let ghost hb = choose|b: Vec<u8>|
            #[trigger] read_of(
                store@,
                encode_utf8(handle_key_spec(handle)),
                calls1.last(),
                Ok::<Vec<u8>, StorageError>(b),
            ) && decode_handle_spec(b@) == Some(peer@);
        proof {
            lemma_extends_push(old(store).calls(), old(store).calls(), calls1);
            assert(read_of(store@, encode_utf8(handle_key_spec(handle)), calls1[calls1.len() - 1], Ok::<Vec<u8>, StorageError>(hb)));
            assert(read_in(store@, calls1, base, handle_key_spec(handle), hb@));
        }
        let prefix = outbox_prefix(&peer);
        let keys = keys_under(store, OUTBOX_NAMESPACE, prefix.as_str())?;
        let ghost calls2 = store.calls();
        let ghost all = choose|all: Seq<String>|
            #[trigger] listed_in(store@, calls2, calls1.len() as int, OUTBOX_NAMESPACE.spec_bytes(), all)
                && forall|j: int|
                0 <= j < all.len() && bytes_prefix(encode_utf8(prefix@), encode_utf8(all[j]@))
                    ==> keys@.contains(#[trigger] all[j]);
        proof {
            lemma_extends_push(old(store).calls(), calls1, calls2);
            assert(calls2.subrange(0, calls2.len() as int) =~= calls2);
        }
        let mut out: Vec<OutgoingMessage> = Vec::new();
        let mut i: usize = 0;
        while i < keys.len()
            invariant
                i <= keys@.len(),
                store@ == old(store)@,
                registered(store@, handle, peer@),
                prefix@ == outbox_prefix_spec(peer@),
                forall|j: int|
                    0 <= j < keys@.len() ==> bytes_prefix(encode_utf8(prefix@), encode_utf8(#[trigger] keys@[j]@)),
                forall|j: int|
                    0 <= j < out@.len() ==> message_id_spec((#[trigger] out@[j]).wire@)
                        == out@[j].message_id@,
                forall|j: int| 0 <= j < out@.len() ==> #[trigger] in_outbox(store@, handle, out@[j]),
                extends(calls2, store.calls()),
                0 <= base <= calls2.len(),
                forall|j: int| 0 <= j < i ==> #[trigger] outgoing_read(store@, store.calls(), base, keys@[j]@, out@),
            decreases keys@.len() - i,
        {
            let ghost calls_before = store.calls();
            let ghost out_before = out@;
            let bytes = match store.get(keys[i].as_str()) {
                Ok(b) => b,
                Err(e) => {
                    return Err(MessagingError::Store(e));
                },
            };
            let m = decode_outbox(bytes.as_slice())?;
            proof {
                assert(stored_under(store@, keys@[i as int]@, bytes@));
                assert(bytes_prefix(encode_utf8(outbox_prefix_spec(peer@)), encode_utf8(keys@[i as int]@)));
                assert(in_outbox(store@, handle, m));
            }
            out.push(m);
            proof {
                let calls_now = store.calls();
                lemma_extends_push(calls2, calls_before, calls_now);
                let last = calls_now.len() - 1;
                assert(read_of(store@, encode_utf8(keys@[i as int]@), calls_now[last], Ok::<Vec<u8>, StorageError>(bytes)));
                assert(read_in(store@, calls_now, base, keys@[i as int]@, bytes@));
                let rec = decode_outbox_spec(bytes@)->Some_0;
                assert(out@[out@.len() - 1] == m);
                assert(holds_outgoing(out@, rec));
                assert(outgoing_read(store@, calls_now, base, keys@[i as int]@, out@));
                assert forall|j: int| 0 <= j < i + 1 implies #[trigger] outgoing_read(store@, calls_now, base, keys@[j]@, out@) by {
                    if j < i {
                        assert forall|k: int| 0 <= k < out_before.len() implies out@.contains(#[trigger] out_before[k]) by {
                            assert(out@[k] == out_before[k]);
                        }
                        lemma_outgoing_read_mono(store@, calls_before, calls_now, base, keys@[j]@, out_before, out@);
                    }
                }
            }
            i = i + 1;
        }
        let sorted = sort_outgoing(out);
        proof {
            let calls_end = store.calls();
            lemma_read_in_mono(store@, calls1, calls2, base, base, handle_key_spec(handle), hb@);
            lemma_read_in_mono(store@, calls2, calls_end, base, base, handle_key_spec(handle), hb@);
            lemma_listed_in_mono(store@, calls2, calls2, calls1.len() as int, base, OUTBOX_NAMESPACE.spec_bytes(), all);
            lemma_listed_in_mono(store@, calls2, calls_end, base, base, OUTBOX_NAMESPACE.spec_bytes(), all);
            assert(calls_end.subrange(0, base) =~= calls2.subrange(0, base));
            assert(calls_end.subrange(0, calls_end.len() as int) =~= calls_end);
            assert forall|k: int| 0 <= k < out@.len() implies sorted@.contains(#[trigger] out@[k]) by {
                vstd::seq_lib::to_multiset_contains(out@, out@[k]);
                vstd::seq_lib::to_multiset_contains(sorted@, out@[k]);
            }
            assert forall|j: int|
                0 <= j < all.len() && bytes_prefix(encode_utf8(outbox_prefix_spec(peer@)), encode_utf8(all[j]@))
                    implies #[trigger] outgoing_read(store@, calls_end, base, all[j]@, sorted@) by {
                assert(keys@.contains(all[j]));
                let q = choose|q: int| 0 <= q < keys@.len() && keys@[q] == all[j];
                assert(outgoing_read(store@, calls_end, base, keys@[q]@, out@));
                lemma_outgoing_read_mono(store@, calls_end, calls_end, base, keys@[q]@, out@, sorted@);
            }
            assert(decode_handle_spec(hb@) == Some(peer@));
            assert(read_in(store@, calls_end, base, handle_key_spec(handle), hb@));
            assert(listed_in(store@, calls_end, base, OUTBOX_NAMESPACE.spec_bytes(), all));
            assert(pending_outgoing_run(store@, handle, calls_end, base, sorted@));
        }
        proof {
            assert forall|j: int| 0 <= j < sorted@.len() implies message_id_spec(
                (#[trigger] sorted@[j]).wire@,
            ) == sorted@[j].message_id@ && in_outbox(store@, handle, sorted@[j]) by {
                vstd::seq_lib::to_multiset_contains(sorted@, sorted@[j]);
                vstd::seq_lib::to_multiset_contains(out@, sorted@[j]);
                let k = choose|k: int| 0 <= k < out@.len() && out@[k] == sorted@[j];
                assert(in_outbox(store@, handle, out@[k]));
            }
        }
        Ok(sorted)
    }

    /// Removes the outgoing message `id` once its delivery is confirmed.
    /// Returns whether it was still pending; repeating it is harmless.
    pub fn acknowledge_outgoing(&self, store: &mut EncryptedStore, handle: u64, id: &MessageId) -> (r:
        Result<bool, MessagingError>)
        ensures
            final(store)@ == old(store)@,
            r matches Ok(true) ==> exists|v: Seq<u8>, p: Seq<u8>, w: Seq<u8>|
                #![trigger decode_handle_spec(v), outbox_key_spec(p, id@), stored_under(old(store)@, outbox_key_spec(p, id@), w)]
                stored_under(old(store)@, handle_key_spec(handle), v) && decode_handle_spec(v) == Some(p)
                    && stored_under(old(store)@, outbox_key_spec(p, id@), w),
            !(r matches Err(MessagingError::OutcomeUnknown { .. })),
    {
        let peer = self.require_peer(store, handle)?;
        let key = outbox_key(&peer, id);
        match store.get(key.as_str()) {
            Ok(w) => {
                proof {
                    let v = choose|v: Seq<u8>|
                        stored_under(store@, handle_key_spec(handle), v) && #[trigger] decode_handle_spec(v)
                            == Some(peer@);
                    assert(decode_handle_spec(v) == Some(peer@) && outbox_key_spec(peer@, id@) == key@);
                    assert(stored_under(store@, outbox_key_spec(peer@, id@), w@));
                }
                match store.delete(key.as_str()) {
                    Ok(()) => Ok(true),
                    Err(e) => Err(MessagingError::Store(e)),
                }
            },
            Err(StorageError::NotFound) => Ok(false),
            Err(e) => Err(MessagingError::Store(e)),
        }
    }

    /// Every committed incoming message not yet acknowledged, in the order
    /// it was received.
    pub fn pending_incoming(&self, store: &mut EncryptedStore, handle: u64) -> (r: Result<
        Vec<IncomingMessage>,
        MessagingError,
    >)
        ensures
            final(store)@ == old(store)@,
            r matches Ok(v) ==> incoming_sorted(v@),
            r matches Ok(v) ==> forall|i: int| 0 <= i < v@.len() ==> #[trigger] in_inbox(old(store)@, handle, v@[i]),
            r matches Ok(v) ==> pending_incoming_run(
                old(store)@,
                handle,
                final(store).calls(),
                old(store).calls().len() as int,
                v@,
            ),
            !(r matches Err(MessagingError::OutcomeUnknown { .. })),
    {
        let ghost base = old(store).calls().len() as int;
        proof {
            assert(old(store).calls().subrange(0, base) =~= old(store).calls());
        }
        let peer = self.require_peer(store, handle)?;
        let ghost calls1 = store.calls();
        let ghost hb = choose|b: Vec<u8>|
            #[trigger] read_of(
                store@,
                encode_utf8(handle_key_spec(handle)),
                calls1.last(),
                Ok::<Vec<u8>, StorageError>(b),
            ) && decode_handle_spec(b@) == Some(peer@);
        proof {
            lemma_extends_push(old(store).calls(), old(store).calls(), calls1);
            assert(read_of(store@, encode_utf8(handle_key_spec(handle)), calls1[calls1.len() - 1], Ok::<Vec<u8>, StorageError>(hb)));
            assert(read_in(store@, calls1, base, handle_key_spec(handle), hb@));
        }
        let prefix = inbox_prefix(&peer);
        let keys = keys_under(store, INBOX_NAMESPACE, prefix.as_str())?;
        let ghost calls2 = store.calls();
        let ghost all = choose|all: Seq<String>|
            #[trigger] listed_in(store@, calls2, calls1.len() as int, INBOX_NAMESPACE.spec_bytes(), all)
                && forall|j: int|
                0 <= j < all.len() && bytes_prefix(encode_utf8(prefix@), encode_utf8(all[j]@))
                    ==> keys@.contains(#[trigger] all[j]);
        proof {
            lemma_extends_push(old(store).calls(), calls1, calls2);
            assert(calls2.subrange(0, calls2.len() as int) =~= calls2);
        }
        let mut out: Vec<IncomingMessage> = Vec::new();
        let mut i: usize = 0;
        while i < keys.len()
            invariant
                i <= keys@.len(),
                store@ == old(store)@,
                registered(store@, handle, peer@),
                prefix@ == inbox_prefix_spec(peer@),
                forall|j: int|
                    0 <= j < keys@.len() ==> bytes_prefix(encode_utf8(prefix@), encode_utf8(#[trigger] keys@[j]@)),
                forall|j: int| 0 <= j < out@.len() ==> #[trigger] in_inbox(store@, handle, out@[j]),
                extends(calls2, store.calls()),
                0 <= base <= calls2.len(),
                forall|j: int| 0 <= j < i ==> #[trigger] incoming_read(store@, store.calls(), base, keys@[j]@, out@),
            decreases keys@.len() - i,
        {
            let ghost calls_before = store.calls();
            let ghost out_before = out@;
            let bytes = match store.get(keys[i].as_str()) {
                Ok(b) => b,
                Err(e) => {
                    return Err(MessagingError::Store(e));
                },
            };
            let m = decode_inbox(bytes.as_slice())?;
            proof {
                assert(stored_under(store@, keys@[i as int]@, bytes@));
                assert(bytes_prefix(encode_utf8(inbox_prefix_spec(peer@)), encode_utf8(keys@[i as int]@)));
                assert(in_inbox(store@, handle, m));
            }
            out.push(m);
            proof {
                let calls_now = store.calls();
                lemma_extends_push(calls2, calls_before, calls_now);
                let last = calls_now.len() - 1;
                assert(read_of(store@, encode_utf8(keys@[i as int]@), calls_now[last], Ok::<Vec<u8>, StorageError>(bytes)));
                assert(read_in(store@, calls_now, base, keys@[i as int]@, bytes@));
                let rec = decode_inbox_spec(bytes@)->Some_0;
                assert(out@[out@.len() - 1] == m);
                assert(holds_incoming(out@, rec));
                assert(incoming_read(store@, calls_now, base, keys@[i as int]@, out@));
                assert forall|j: int| 0 <= j < i + 1 implies #[trigger] incoming_read(store@, calls_now, base, keys@[j]@, out@) by {
                    if j < i {
                        assert forall|k: int| 0 <= k < out_before.len() implies out@.contains(#[trigger] out_before[k]) by {
                            assert(out@[k] == out_before[k]);
                        }
                        lemma_incoming_read_mono(store@, calls_before, calls_now, base, keys@[j]@, out_before, out@);
                    }
                }
            }
            i = i + 1;
        }
        let sorted = sort_incoming(out);
        proof {
            let calls_end = store.calls();
            lemma_read_in_mono(store@, calls1, calls2, base, base, handle_key_spec(handle), hb@);
            lemma_read_in_mono(store@, calls2, calls_end, base, base, handle_key_spec(handle), hb@);
            lemma_listed_in_mono(store@, calls2, calls2, calls1.len() as int, base, INBOX_NAMESPACE.spec_bytes(), all);
            lemma_listed_in_mono(store@, calls2, calls_end, base, base, INBOX_NAMESPACE.spec_bytes(), all);
            assert(calls_end.subrange(0, base) =~= calls2.subrange(0, base));
            assert(calls_end.subrange(0, calls_end.len() as int) =~= calls_end);
            assert forall|k: int| 0 <= k < out@.len() implies sorted@.contains(#[trigger] out@[k]) by {
                vstd::seq_lib::to_multiset_contains(out@, out@[k]);
                vstd::seq_lib::to_multiset_contains(sorted@, out@[k]);
            }
            assert forall|j: int|
                0 <= j < all.len() && bytes_prefix(encode_utf8(inbox_prefix_spec(peer@)), encode_utf8(all[j]@))
                    implies #[trigger] incoming_read(store@, calls_end, base, all[j]@, sorted@) by {
                assert(keys@.contains(all[j]));
                let q = choose|q: int| 0 <= q < keys@.len() && keys@[q] == all[j];
                assert(incoming_read(store@, calls_end, base, keys@[q]@, out@));
                lemma_incoming_read_mono(store@, calls_end, calls_end, base, keys@[q]@, out@, sorted@);
            }
            assert(decode_handle_spec(hb@) == Some(peer@));
            assert(read_in(store@, calls_end, base, handle_key_spec(handle), hb@));
            assert(listed_in(store@, calls_end, base, INBOX_NAMESPACE.spec_bytes(), all));
            assert(pending_incoming_run(store@, handle, calls_end, base, sorted@));
        }
        proof {
            assert forall|j: int| 0 <= j < sorted@.len() implies #[trigger] in_inbox(store@, handle, sorted@[j]) by {
                vstd::seq_lib::to_multiset_contains(sorted@, sorted@[j]);
                vstd::seq_lib::to_multiset_contains(out@, sorted@[j]);
                let k = choose|k: int| 0 <= k < out@.len() && out@[k] == sorted@[j];
                assert(in_inbox(store@, handle, out@[k]));
            }
        }
        Ok(sorted)
    }

    /// Marks the incoming message `id` delivered: its inbox record and
    /// plaintext go, and a seen record keeps its id so that the same message
    /// is still recognised as a duplicate. Returns whether it was
    /// undelivered until now; repeating it is harmless.
    pub fn acknowledge_incoming(&self, store: &mut EncryptedStore, handle: u64, id: &MessageId) -> (r:
        Result<bool, MessagingError>)
        ensures
            r matches Ok(true) ==> exists|v: Seq<u8>, p: Seq<u8>, w: Seq<u8>|
                #![trigger decode_handle_spec(v), stored_under(old(store)@, inbox_key_spec(p, id@), w)]
                stored_under(old(store)@, handle_key_spec(handle), v) && decode_handle_spec(v) == Some(p)
                    && stored_under(old(store)@, inbox_key_spec(p, id@), w) && decode_inbox_spec(w) is Some,
            r matches Ok(false) ==> exists|v: Seq<u8>, p: Seq<u8>, w: Seq<u8>|
                #![trigger decode_handle_spec(v), stored_under(old(store)@, seen_key_spec(p, id@), w)]
                stored_under(old(store)@, handle_key_spec(handle), v) && decode_handle_spec(v) == Some(p)
                    && stored_under(old(store)@, seen_key_spec(p, id@), w) && decode_id_record_spec(
                    seen_magic_spec(),
                    w,
                ) is Some,
            !(r matches Err(MessagingError::OutcomeUnknown { .. })),
    {
        let peer = self.require_peer(store, handle)?;
        let key = inbox_key(&peer, id);
        let seen = seen_key(&peer, id);
        let ghost reg = choose|v: Seq<u8>|
            stored_under(store@, handle_key_spec(handle), v) && #[trigger] decode_handle_spec(v) == Some(peer@);
        proof {
            lemma_keys_fit(handle, peer@, id@, Seq::empty());
        }
        let mut tx = match store.transaction() {
            Ok(tx) => tx,
            Err(e) => {
                return Err(MessagingError::NotCommitted(e));
            },
        };
        match tx.get(key.as_str()) {
            Ok(bytes) => {
                decode_inbox(bytes.as_slice())?;
                proof {
                    assert(decode_handle_spec(reg) == Some(peer@) && inbox_key_spec(peer@, id@) == key@);
                    assert(stored_under(old(store)@, inbox_key_spec(peer@, id@), bytes@));
                }
                match tx.delete(key.as_str()) {
                    Ok(()) => {},
                    Err(e) => {
                        return Err(MessagingError::NotCommitted(e));
                    },
                }
                let m = seen_magic();
                match tx.put(seen.as_str(), encode_id_record(&m, id).as_slice()) {
                    Ok(()) => {},
                    Err(e) => {
                        return Err(MessagingError::NotCommitted(e));
                    },
                }
                helpers::commit_repeatable(tx)?;
                Ok(true)
            },
            Err(StorageError::NotFound) => match tx.get(seen.as_str()) {
                Ok(b) => {
                    let m = seen_magic();
                    decode_id_record(&m, b.as_slice(), "seen")?;
                    proof {
                        assert(decode_handle_spec(reg) == Some(peer@) && seen_key_spec(peer@, id@) == seen@);
                        assert(stored_under(old(store)@, seen_key_spec(peer@, id@), b@));
                    }
                    Ok(false)
                },
                Err(StorageError::NotFound) => Err(MessagingError::UnknownMessage),
                Err(e) => Err(MessagingError::Store(e)),
            },
            Err(e) => Err(MessagingError::Store(e)),
        }
    }

    /// Reports what the store holds for an unresolved session and lets it
    /// continue from there; `Ok(None)` if it was not unresolved. The
    /// unresolved commit's output was never released, so continuing from
    /// the stored state cannot compete with anything already sent or shown.
    pub fn recover(&mut self, store: &mut EncryptedStore, our_identity_pk: [u8; 32], handle: u64) -> (r:
        Result<Option<Recovery>, MessagingError>)
        ensures
            !old(self)@.contains_key(handle) ==> (r matches Ok(None)) && final(self)@ == old(self)@,
            old(self)@.contains_key(handle) ==> !(r matches Ok(None)),
            r matches Ok(Some(rec)) ==> final(self)@ == old(self)@.remove(handle)
                && rec.attempted_generation == old(self)@[handle].attempted_generation,
            r matches Ok(Some(rec)) && rec.artifact_committed ==> exists|w: Seq<u8>|
                #[trigger] stored_under(old(store)@, old(self)@[handle].artifact_key@, w),
            r matches Ok(Some(rec)) ==> (exists|sr: Seq<u8>, m: DurableModel|
                #[trigger] stored_session(sr, m) && m.our == our_identity_pk@ && m.generation
                    == rec.stored_generation && registered(old(store)@, handle, m.peer)) || (
            rec.attempted_generation == 0 && rec.stored_generation == 0 && !rec.artifact_committed),
            r is Err ==> final(self)@ == old(self)@,
    {
        let (attempted_generation, artifact_key) = match self.unresolved.get(&handle) {
            None => {
                return Ok(None);
            },
            Some(u) => (u.attempted_generation, u.artifact_key.clone()),
        };
        let artifact_committed = match store.get(artifact_key.as_str()) {
            Ok(w) => {
                proof {
                    assert(stored_under(old(store)@, old(self)@[handle].artifact_key@, w@));
                }
                true
            },
            Err(StorageError::NotFound) => false,
            Err(e) => {
                return Err(MessagingError::Store(e));
            },
        };
        let stored_generation = match self.load(store, our_identity_pk, handle) {
            Ok((session, _)) => {
                proof {
                    let sr = choose|sr: Seq<u8>| #[trigger] stored_session(sr, session@);
                    assert(stored_session(sr, session@));
                }
                session.generation()
            },
            Err(e) => {
                // An unresolved creation that did not take effect.
                let no_session = match e {
                    MessagingError::NoSession { .. } => true,
                    _ => false,
                };
                if attempted_generation == 0 && no_session {
                    self.unresolved.remove(&handle);
                    return Ok(
                        Some(
                            Recovery {
                                attempted_generation,
                                stored_generation: 0,
                                artifact_committed: false,
                            },
                        ),
                    );
                }
                return Err(e);
            },
        };
        self.unresolved.remove(&handle);
        Ok(Some(Recovery { attempted_generation, stored_generation, artifact_committed }))
    }

    /// Gives up on the pending outgoing message `id` without claiming it was
    /// delivered: it leaves the outbox, and its logical id is recorded as
    /// abandoned, so sending with that id again is reported as abandoned
    /// instead of encrypting it again. Returns whether it was still pending.
    pub fn abandon_outgoing(&self, store: &mut EncryptedStore, handle: u64, id: &MessageId) -> (r:
        Result<bool, MessagingError>)
        ensures
            r matches Ok(true) ==> exists|v: Seq<u8>, p: Seq<u8>, w: Seq<u8>|
                #![trigger decode_handle_spec(v), stored_under(old(store)@, outbox_key_spec(p, id@), w)]
                stored_under(old(store)@, handle_key_spec(handle), v) && decode_handle_spec(v) == Some(p)
                    && stored_under(old(store)@, outbox_key_spec(p, id@), w) && decode_outbox_spec(w) is Some,
            !(r matches Err(MessagingError::OutcomeUnknown { .. })),
    {
        let peer = self.require_peer(store, handle)?;
        let key = outbox_key(&peer, id);
        let ghost reg = choose|v: Seq<u8>|
            stored_under(store@, handle_key_spec(handle), v) && #[trigger] decode_handle_spec(v) == Some(peer@);
        let mut tx = match store.transaction() {
            Ok(tx) => tx,
            Err(e) => {
                return Err(MessagingError::NotCommitted(e));
            },
        };
        let message = match tx.get(key.as_str()) {
            Ok(bytes) => {
                let m = decode_outbox(bytes.as_slice())?;
                proof {
                    assert(decode_handle_spec(reg) == Some(peer@) && outbox_key_spec(peer@, id@) == key@);
                    assert(stored_under(old(store)@, outbox_key_spec(peer@, id@), bytes@));
                }
                m
            },
            Err(StorageError::NotFound) => {
                return Ok(false);
            },
            Err(e) => {
                return Err(MessagingError::Store(e));
            },
        };
        proof {
            lemma_keys_fit(handle, peer@, id@, message.client_message_id@);
        }
        match tx.delete(key.as_str()) {
            Ok(()) => {},
            Err(e) => {
                return Err(MessagingError::NotCommitted(e));
            },
        }
        let index_key = sendid_key(&peer, message.client_message_id.as_slice());
        let x = abandoned_magic();
        match tx.put(index_key.as_str(), encode_id_record(&x, id).as_slice()) {
            Ok(()) => {},
            Err(e) => {
                return Err(MessagingError::NotCommitted(e));
            },
        }
        helpers::commit_repeatable(tx)?;
        Ok(true)
    }

    /// Deletes the session under `handle` (its checkpoint, handle record and
    /// stored handshake) in one transaction, so that a new session with that
    /// peer can be created. Duplicate-detection and send-id records stay.
    /// Only a session with no obligations left is removed: not while a
    /// commit on it is unresolved, not once it has received from the peer,
    /// not while outgoing messages are pending, and not if it changed while
    /// this ran.
    pub fn remove_session(&mut self, store: &mut EncryptedStore, our_identity_pk: [u8; 32], handle: u64) -> (r:
        Result<(), MessagingError>)
        ensures
            final(self)@ == old(self)@,
            old(self)@.contains_key(handle) ==> (r matches Err(MessagingError::Unresolved { .. })),
            r matches Err(MessagingError::SessionEstablished) ==> exists|sr: Seq<u8>, m: DurableModel|
                #[trigger] stored_session(sr, m) && m.our == our_identity_pk@ && registered(
                    old(store)@,
                    handle,
                    m.peer,
                ) && m.ratchet.ckr is Some,
            r is Ok ==> exists|sr: Seq<u8>, m: DurableModel|
                #[trigger] stored_session(sr, m) && m.our == our_identity_pk@ && registered(
                    old(store)@,
                    handle,
                    m.peer,
                ) && m.ratchet.ckr is None,
            r matches Err(MessagingError::PendingOutgoing { count }) ==> count > 0,
    {
        self.require_resolved(handle)?;
        let (session, peer) = self.load(store, our_identity_pk, handle)?;
        let ghost m0 = session@;
        let ghost sr = choose|sr: Seq<u8>| #[trigger] stored_session(sr, m0);
        proof {
            assert(stored_session(sr, m0));
        }
        if session.has_received() {
            return Err(MessagingError::SessionEstablished);
        }
        let prefix = outbox_prefix(&peer);
        let pending = keys_under(store, OUTBOX_NAMESPACE, prefix.as_str())?.len();
        if pending > 0 {
            return Err(MessagingError::PendingOutgoing { count: pending });
        }
        let session_key = crate::session_checkpoint::session_storage_key(&peer);
        let hk = handle_key(handle);
        let hs = handshake_key(&peer);
        let mut tx = match store.transaction() {
            Ok(tx) => tx,
            Err(e) => {
                return Err(MessagingError::NotCommitted(e));
            },
        };
        match tx.get(session_key.as_str()) {
            Ok(record) => {
                if !session.holds_record(record.as_slice()) {
                    return Err(MessagingError::Conflict(Conflict::RecordChanged));
                }
            },
            Err(StorageError::NotFound) => {
                return Err(MessagingError::Conflict(Conflict::RecordChanged));
            },
            Err(e) => {
                return Err(MessagingError::Store(e));
            },
        }
        match tx.delete(session_key.as_str()) {
            Ok(()) => {},
            Err(e) => {
                return Err(MessagingError::NotCommitted(e));
            },
        }
        match tx.delete(hk.as_str()) {
            Ok(()) => {},
            Err(e) => {
                return Err(MessagingError::NotCommitted(e));
            },
        }
        match tx.delete(hs.as_str()) {
            Ok(()) => {},
            Err(e) => {
                return Err(MessagingError::NotCommitted(e));
            },
        }
        helpers::commit_repeatable(tx)?;
        Ok(())
    }
}

} // verus!
