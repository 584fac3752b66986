//! Store keys and the fixed-layout records of durable messaging: handle,
//! outbox, inbox, send-id and seen entries.
//!
//! Only the `outbox:` and `inbox:` namespaces are ever listed, and they hold
//! only pending entries; everything kept after an acknowledgement lives in
//! `seen:` and `sendid:`, which are read by exact key. Records are never
//! transmitted; their confidentiality and integrity come from the encrypted
//! store. Integers are big-endian.

use vstd::prelude::*;

use crate::buf::{append_bytes, array32_at, bytes_eq, bytes_to_vec};
use crate::bytes::{
    be8_bytes, be8_value, be_bytes, be_value, lemma_be8_bytes_of_value, lemma_be8_round_trip,
    lemma_be_bytes_len, lemma_be_value_of_bytes, lemma_bytes_of_be_value, pow256, u32_from_be,
    u32_to_be, u64_from_be, u64_to_be,
};
use crate::messaging::{
    message_id, message_id_spec, IncomingMessage, MessageId, MessagingError, OutgoingMessage,
};
use crate::text::{hex_spec, hex_width_spec, push_hex, push_hex_width, push_str};

verus! {

// ── Store keys ────────────────────────────────────────────────────────────────

/// Two lower-case hexadecimal digits per byte.
pub fn hex(bytes: &[u8]) -> (s: String)
    ensures
        s@ == hex_spec(bytes@),
{
    let mut s = String::new();
    push_hex(&mut s, bytes);
    assert(s@ =~= hex_spec(bytes@));
    s
}

pub open spec fn handle_key_spec(handle: u64) -> Seq<char> {
    "handle:v1/"@ + hex_width_spec(handle as nat, 16)
}

pub open spec fn handshake_key_spec(peer: Seq<u8>) -> Seq<char> {
    "hsout:v1/"@ + hex_spec(peer)
}

pub open spec fn outbox_prefix_spec(peer: Seq<u8>) -> Seq<char> {
    "outbox:v1/"@ + hex_spec(peer) + "/"@
}

pub open spec fn inbox_prefix_spec(peer: Seq<u8>) -> Seq<char> {
    "inbox:v1/"@ + hex_spec(peer) + "/"@
}

pub open spec fn outbox_key_spec(peer: Seq<u8>, id: Seq<u8>) -> Seq<char> {
    outbox_prefix_spec(peer) + hex_spec(id)
}

pub open spec fn inbox_key_spec(peer: Seq<u8>, id: Seq<u8>) -> Seq<char> {
    inbox_prefix_spec(peer) + hex_spec(id)
}

pub open spec fn seen_key_spec(peer: Seq<u8>, id: Seq<u8>) -> Seq<char> {
    "seen:v1/"@ + hex_spec(peer) + "/"@ + hex_spec(id)
}

pub open spec fn sendid_key_spec(peer: Seq<u8>, client_id: Seq<u8>) -> Seq<char> {
    "sendid:v1/"@ + hex_spec(peer) + "/"@ + hex_spec(client_id)
}

/// The namespace listed for pending outgoing messages.
pub const OUTBOX_NAMESPACE: &'static str = "outbox:";

/// The namespace listed for pending incoming messages.
pub const INBOX_NAMESPACE: &'static str = "inbox:";

/// The record naming the peer registered under `handle`.
pub fn handle_key(handle: u64) -> (k: String)
    ensures
        k@ == handle_key_spec(handle),
{
    let mut s = String::new();
    push_str(&mut s, "handle:v1/");
    push_hex_width(&mut s, handle, 16);
    s
}

/// The stored initial handshake bytes of the session with `peer`.
pub fn handshake_key(peer: &[u8; 32]) -> (k: String)
    ensures
        k@ == handshake_key_spec(peer@),
{
    let mut s = String::new();
    push_str(&mut s, "hsout:v1/");
    push_hex(&mut s, peer.as_slice());
    s
}

/// Prefix of the pending outgoing messages to `peer`.
pub fn outbox_prefix(peer: &[u8; 32]) -> (k: String)
    ensures
        k@ == outbox_prefix_spec(peer@),
{
    let mut s = String::new();
    push_str(&mut s, "outbox:v1/");
    push_hex(&mut s, peer.as_slice());
    push_str(&mut s, "/");
    s
}

/// Prefix of the pending incoming messages from `peer`.
pub fn inbox_prefix(peer: &[u8; 32]) -> (k: String)
    ensures
        k@ == inbox_prefix_spec(peer@),
{
    let mut s = String::new();
    push_str(&mut s, "inbox:v1/");
    push_hex(&mut s, peer.as_slice());
    push_str(&mut s, "/");
    s
}

/// The pending outgoing message `id` to `peer`.
pub fn outbox_key(peer: &[u8; 32], id: &MessageId) -> (k: String)
    ensures
        k@ == outbox_key_spec(peer@, id@),
{
    let mut s = outbox_prefix(peer);
    push_hex(&mut s, id.as_slice());
    s
}

/// The pending incoming message `id` from `peer`.
pub fn inbox_key(peer: &[u8; 32], id: &MessageId) -> (k: String)
    ensures
        k@ == inbox_key_spec(peer@, id@),
{
    let mut s = inbox_prefix(peer);
    push_hex(&mut s, id.as_slice());
    s
}

/// The tombstone of an incoming message that was acknowledged.
pub fn seen_key(peer: &[u8; 32], id: &MessageId) -> (k: String)
    ensures
        k@ == seen_key_spec(peer@, id@),
{
    let mut s = String::new();
    push_str(&mut s, "seen:v1/");
    push_hex(&mut s, peer.as_slice());
    push_str(&mut s, "/");
    push_hex(&mut s, id.as_slice());
    s
}

/// Maps a caller's logical message id to the message it produced.
pub fn sendid_key(peer: &[u8; 32], client_id: &[u8]) -> (k: String)
    ensures
        k@ == sendid_key_spec(peer@, client_id@),
{
    let mut s = String::new();
    push_str(&mut s, "sendid:v1/");
    push_hex(&mut s, peer.as_slice());
    push_str(&mut s, "/");
    push_hex(&mut s, client_id);
    s
}

// ── Records ───────────────────────────────────────────────────────────────────

/// Version byte of every record here.
pub const RECORD_VERSION: u8 = 1;

/// Longest caller-supplied logical message id, in bytes.
pub const MAX_CLIENT_MESSAGE_ID_LEN: usize = 64;

/// `ARCHNDL`
pub open spec fn handle_magic_spec() -> Seq<u8> {
    seq![0x41u8, 0x52u8, 0x43u8, 0x48u8, 0x4eu8, 0x44u8, 0x4cu8]
}

/// `ARCOUTB`
pub open spec fn outbox_magic_spec() -> Seq<u8> {
    seq![0x41u8, 0x52u8, 0x43u8, 0x4fu8, 0x55u8, 0x54u8, 0x42u8]
}

/// `ARCINBX`
pub open spec fn inbox_magic_spec() -> Seq<u8> {
    seq![0x41u8, 0x52u8, 0x43u8, 0x49u8, 0x4eu8, 0x42u8, 0x58u8]
}

/// `ARCSEEN`
pub open spec fn seen_magic_spec() -> Seq<u8> {
    seq![0x41u8, 0x52u8, 0x43u8, 0x53u8, 0x45u8, 0x45u8, 0x4eu8]
}

/// `ARCSNDI`
pub open spec fn sendid_magic_spec() -> Seq<u8> {
    seq![0x41u8, 0x52u8, 0x43u8, 0x53u8, 0x4eu8, 0x44u8, 0x49u8]
}

/// `ARCSNDX`: a send-id record whose message the caller abandoned.
pub open spec fn abandoned_magic_spec() -> Seq<u8> {
    seq![0x41u8, 0x52u8, 0x43u8, 0x53u8, 0x4eu8, 0x44u8, 0x58u8]
}

pub fn handle_magic() -> (m: [u8; 7])
    ensures
        m@ == handle_magic_spec(),
{
    let m = [0x41u8, 0x52u8, 0x43u8, 0x48u8, 0x4eu8, 0x44u8, 0x4cu8];
    assert(m@ =~= handle_magic_spec());
    m
}

pub fn outbox_magic() -> (m: [u8; 7])
    ensures
        m@ == outbox_magic_spec(),
{
    let m = [0x41u8, 0x52u8, 0x43u8, 0x4fu8, 0x55u8, 0x54u8, 0x42u8];
    assert(m@ =~= outbox_magic_spec());
    m
}

pub fn inbox_magic() -> (m: [u8; 7])
    ensures
        m@ == inbox_magic_spec(),
{
    let m = [0x41u8, 0x52u8, 0x43u8, 0x49u8, 0x4eu8, 0x42u8, 0x58u8];
    assert(m@ =~= inbox_magic_spec());
    m
}

pub fn seen_magic() -> (m: [u8; 7])
    ensures
        m@ == seen_magic_spec(),
{
    let m = [0x41u8, 0x52u8, 0x43u8, 0x53u8, 0x45u8, 0x45u8, 0x4eu8];
    assert(m@ =~= seen_magic_spec());
    m
}

pub fn sendid_magic() -> (m: [u8; 7])
    ensures
        m@ == sendid_magic_spec(),
{
    let m = [0x41u8, 0x52u8, 0x43u8, 0x53u8, 0x4eu8, 0x44u8, 0x49u8];
    assert(m@ =~= sendid_magic_spec());
    m
}

pub fn abandoned_magic() -> (m: [u8; 7])
    ensures
        m@ == abandoned_magic_spec(),
{
    let m = [0x41u8, 0x52u8, 0x43u8, 0x53u8, 0x4eu8, 0x44u8, 0x58u8];
    assert(m@ =~= abandoned_magic_spec());
    m
}

/// `HANDLE_RECORD_V1`: magic(7) version(1) peer_identity_pk(32).
pub open spec fn handle_record_spec(peer: Seq<u8>) -> Seq<u8> {
    handle_magic_spec() + seq![RECORD_VERSION] + peer
}

/// `OUTBOX_RECORD_V1`: magic(7) version(1) generation(8) id(32)
/// client_id_len(1) client_id wire_len(4) wire.
pub open spec fn outbox_record_spec(generation: u64, id: Seq<u8>, client_id: Seq<u8>, wire: Seq<u8>) -> Seq<u8> {
    outbox_magic_spec() + seq![RECORD_VERSION] + be8_bytes(generation) + id + seq![
        client_id.len() as u8,
    ] + client_id + be_bytes(wire.len(), 4) + wire
}

/// `INBOX_RECORD_V1`: magic(7) version(1) generation(8) id(32) len(4)
/// plaintext. Present only while the message is undelivered.
pub open spec fn inbox_record_spec(generation: u64, id: Seq<u8>, plaintext: Seq<u8>) -> Seq<u8> {
    inbox_magic_spec() + seq![RECORD_VERSION] + be8_bytes(generation) + id + be_bytes(
        plaintext.len(),
        4,
    ) + plaintext
}

/// `SEEN_RECORD_V1` and `SENDID_RECORD_V1`: magic(7) version(1) id(32).
pub open spec fn id_record_spec(magic: Seq<u8>, id: Seq<u8>) -> Seq<u8> {
    magic + seq![RECORD_VERSION] + id
}

/// The peer a handle record names, if it is one.
pub open spec fn decode_handle_spec(b: Seq<u8>) -> Option<Seq<u8>> {
    if b.len() == 40 && b.subrange(0, 7) == handle_magic_spec() && b[7] == RECORD_VERSION {
        Some(b.subrange(8, 40))
    } else {
        None
    }
}

/// The id an id record with `magic` holds, if it is one.
pub open spec fn decode_id_record_spec(magic: Seq<u8>, b: Seq<u8>) -> Option<Seq<u8>> {
    if b.len() == 40 && b.subrange(0, 7) == magic && b[7] == RECORD_VERSION {
        Some(b.subrange(8, 40))
    } else {
        None
    }
}

/// The fields of an outbox record: generation, id, client id and wire, if
/// the record is well formed and its id is its wire's.
pub open spec fn decode_outbox_spec(b: Seq<u8>) -> Option<(u64, Seq<u8>, Seq<u8>, Seq<u8>)> {
    if b.len() < 53 || b.subrange(0, 7) != outbox_magic_spec() || b[7] != RECORD_VERSION {
        None
    } else {
        let n = b[48] as int;
        if n == 0 || n > MAX_CLIENT_MESSAGE_ID_LEN || b.len() - 49 < n + 4 {
            None
        } else {
            let wire = b.subrange(53 + n, b.len() as int);
            if wire.len() != be_value(b.subrange(49 + n, 53 + n)) || message_id_spec(wire)
                != b.subrange(16, 48) {
                None
            } else {
                Some(
                    (
                        be8_value(b.subrange(8, 16)) as u64,
                        b.subrange(16, 48),
                        b.subrange(49, 49 + n),
                        wire,
                    ),
                )
            }
        }
    }
}

/// The fields of an inbox record: generation, id and plaintext.
pub open spec fn decode_inbox_spec(b: Seq<u8>) -> Option<(u64, Seq<u8>, Seq<u8>)> {
    if b.len() < 52 || b.subrange(0, 7) != inbox_magic_spec() || b[7] != RECORD_VERSION {
        None
    } else if b.len() != 52 + be_value(b.subrange(48, 52)) {
        None
    } else {
        Some((be8_value(b.subrange(8, 16)) as u64, b.subrange(16, 48), b.subrange(52, b.len() as int)))
    }
}

pub fn encode_handle(peer: &[u8; 32]) -> (r: Vec<u8>)
    ensures
        r@ == handle_record_spec(peer@),
{
    let mut out: Vec<u8> = Vec::with_capacity(40);
    let m = handle_magic();
    append_bytes(&mut out, m.as_slice());
    out.push(RECORD_VERSION);
    append_bytes(&mut out, peer.as_slice());
    assert(out@ =~= handle_record_spec(peer@));
    out
}

pub fn decode_handle(bytes: &[u8]) -> (r: Result<[u8; 32], MessagingError>)
    ensures
        match decode_handle_spec(bytes@) {
            Some(p) => r matches Ok(k) && k@ == p,
            None => r matches Err(MessagingError::InvalidRecord(w)) && w@ == "handle"@,
        },
{
    let m = handle_magic();
    if bytes.len() != 40 || !bytes_eq(&bytes[0..7], m.as_slice()) || bytes[7] != RECORD_VERSION {
        let w = "handle";
        proof {
            reveal_strlit("handle");
        }
        return Err(MessagingError::InvalidRecord(w));
    }
    Ok(array32_at(bytes, 8))
}

/// Encodes an outbox record. The caller has checked the client id's length.
pub fn encode_outbox(generation: u64, id: &MessageId, client_id: &[u8], wire: &[u8]) -> (r: Vec<u8>)
    requires
        1 <= client_id@.len() <= MAX_CLIENT_MESSAGE_ID_LEN,
        wire@.len() <= u32::MAX,
    ensures
        r@ == outbox_record_spec(generation, id@, client_id@, wire@),
{
    let mut out: Vec<u8> = Vec::new();
    let m = outbox_magic();
    append_bytes(&mut out, m.as_slice());
    out.push(RECORD_VERSION);
    let g = u64_to_be(generation);
    append_bytes(&mut out, g.as_slice());
    append_bytes(&mut out, id.as_slice());
    out.push(client_id.len() as u8);
    append_bytes(&mut out, client_id);
    let n = u32_to_be(wire.len() as u32);
    append_bytes(&mut out, n.as_slice());
    append_bytes(&mut out, wire);
    assert(out@ =~= outbox_record_spec(generation, id@, client_id@, wire@));
    out
}

/// Decodes an outbox record, checking that its id is its wire bytes' id.
pub fn decode_outbox(bytes: &[u8]) -> (r: Result<OutgoingMessage, MessagingError>)
    ensures
        match decode_outbox_spec(bytes@) {
            Some((g, id, cid, wire)) => r matches Ok(m) && m.generation == g && m.message_id@ == id
                && m.client_message_id@ == cid && m.wire@ == wire,
            None => r matches Err(MessagingError::InvalidRecord(w)) && w@ == "outbox"@,
        },
{
    proof {
        reveal_strlit("outbox");
    }
    let m = outbox_magic();
    if bytes.len() < 53 || !bytes_eq(&bytes[0..7], m.as_slice()) || bytes[7] != RECORD_VERSION {
        return Err(MessagingError::InvalidRecord("outbox"));
    }
    let generation = u64_from_be(&bytes[8..16]);
    let id = array32_at(bytes, 16);
    let n = bytes[48] as usize;
    if n == 0 || n > MAX_CLIENT_MESSAGE_ID_LEN || bytes.len() - 49 < n + 4 {
        return Err(MessagingError::InvalidRecord("outbox"));
    }
    let client_id = bytes_to_vec(&bytes[49..49 + n]);
    let wire_len = u32_from_be(&bytes[49 + n..53 + n]);
    let wire = &bytes[53 + n..bytes.len()];
    if wire.len() as u64 != wire_len as u64 {
        return Err(MessagingError::InvalidRecord("outbox"));
    }
    let wid = message_id(wire);
    if !bytes_eq(wid.as_slice(), id.as_slice()) {
        return Err(MessagingError::InvalidRecord("outbox"));
    }
    Ok(OutgoingMessage { message_id: id, client_message_id: client_id, generation, wire: bytes_to_vec(wire) })
}

/// Encodes an inbox record.
pub fn encode_inbox(generation: u64, id: &MessageId, plaintext: &[u8]) -> (r: Vec<u8>)
    requires
        plaintext@.len() <= u32::MAX,
    ensures
        r@ == inbox_record_spec(generation, id@, plaintext@),
{
    let mut out: Vec<u8> = Vec::new();
    let m = inbox_magic();
    append_bytes(&mut out, m.as_slice());
    out.push(RECORD_VERSION);
    let g = u64_to_be(generation);
    append_bytes(&mut out, g.as_slice());
    append_bytes(&mut out, id.as_slice());
    let n = u32_to_be(plaintext.len() as u32);
    append_bytes(&mut out, n.as_slice());
    append_bytes(&mut out, plaintext);
    assert(out@ =~= inbox_record_spec(generation, id@, plaintext@));
    out
}

/// Decodes an inbox record.
pub fn decode_inbox(bytes: &[u8]) -> (r: Result<IncomingMessage, MessagingError>)
    ensures
        match decode_inbox_spec(bytes@) {
            Some((g, id, p)) => r matches Ok(m) && m.generation == g && m.message_id@ == id
                && m.plaintext@ == p,
            None => r matches Err(MessagingError::InvalidRecord(w)) && w@ == "inbox"@,
        },
{
    proof {
        reveal_strlit("inbox");
    }
    let m = inbox_magic();
    if bytes.len() < 52 || !bytes_eq(&bytes[0..7], m.as_slice()) || bytes[7] != RECORD_VERSION {
        return Err(MessagingError::InvalidRecord("inbox"));
    }
    let generation = u64_from_be(&bytes[8..16]);
    let id = array32_at(bytes, 16);
    let len = u32_from_be(&bytes[48..52]);
    if bytes.len() as u64 != 52 + len as u64 {
        return Err(MessagingError::InvalidRecord("inbox"));
    }
    Ok(IncomingMessage { message_id: id, generation, plaintext: bytes_to_vec(&bytes[52..bytes.len()]) })
}

/// Encodes a seen or send-id record.
pub fn encode_id_record(magic: &[u8; 7], id: &MessageId) -> (r: Vec<u8>)
    ensures
        r@ == id_record_spec(magic@, id@),
{
    let mut out: Vec<u8> = Vec::with_capacity(40);
    append_bytes(&mut out, magic.as_slice());
    out.push(RECORD_VERSION);
    append_bytes(&mut out, id.as_slice());
    assert(out@ =~= id_record_spec(magic@, id@));
    out
}

/// Decodes a seen or send-id record with `magic`; `what` names it in the
/// error.
pub fn decode_id_record(magic: &[u8; 7], bytes: &[u8], what: &'static str) -> (r: Result<
    MessageId,
    MessagingError,
>)
    ensures
        match decode_id_record_spec(magic@, bytes@) {
            Some(id) => r matches Ok(k) && k@ == id,
            None => r matches Err(MessagingError::InvalidRecord(w)) && w == what,
        },
{
    if bytes.len() != 40 || !bytes_eq(&bytes[0..7], magic.as_slice()) || bytes[7] != RECORD_VERSION {
        return Err(MessagingError::InvalidRecord(what));
    }
    Ok(array32_at(bytes, 8))
}

// ── Laws ──────────────────────────────────────────────────────────────────────

/// A handle record reads back as the peer it was written for.
pub proof fn lemma_handle_round_trip(peer: Seq<u8>)
    requires
        peer.len() == 32,
    ensures
        decode_handle_spec(handle_record_spec(peer)) == Some(peer),
{
    let b = handle_record_spec(peer);
    assert(b.subrange(0, 7) =~= handle_magic_spec());
    assert(b.subrange(8, 40) =~= peer);
}

/// A seen or send-id record reads back as its id under its own magic.
pub proof fn lemma_id_record_round_trip(magic: Seq<u8>, id: Seq<u8>)
    requires
        magic.len() == 7,
        id.len() == 32,
    ensures
        decode_id_record_spec(magic, id_record_spec(magic, id)) == Some(id),
{
    let b = id_record_spec(magic, id);
    assert(b.subrange(0, 7) =~= magic);
    assert(b.subrange(8, 40) =~= id);
}

/// An outbox record of a message whose id is its wire's reads back as that
/// message.
pub proof fn lemma_outbox_round_trip(generation: u64, id: Seq<u8>, client_id: Seq<u8>, wire: Seq<u8>)
    requires
        id.len() == 32,
        1 <= client_id.len() <= MAX_CLIENT_MESSAGE_ID_LEN,
        wire.len() <= u32::MAX,
        id == message_id_spec(wire),
    ensures
        decode_outbox_spec(outbox_record_spec(generation, id, client_id, wire)) == Some(
            (generation, id, client_id, wire),
        ),
{
    let b = outbox_record_spec(generation, id, client_id, wire);
    let n = client_id.len() as int;
    lemma_be8_round_trip(generation);
    lemma_be_bytes_len(wire.len(), 4);
    reveal_with_fuel(pow256, 5);
    lemma_be_value_of_bytes(wire.len(), 4);
    assert(b.subrange(0, 7) =~= outbox_magic_spec());
    assert(b.subrange(8, 16) =~= be8_bytes(generation));
    assert(b.subrange(16, 48) =~= id);
    assert(b[48] == client_id.len() as u8);
    assert(b.subrange(49, 49 + n) =~= client_id);
    assert(b.subrange(49 + n, 53 + n) =~= be_bytes(wire.len(), 4));
    assert(b.subrange(53 + n, b.len() as int) =~= wire);
}

/// An inbox record reads back as what it was written with.
pub proof fn lemma_inbox_round_trip(generation: u64, id: Seq<u8>, plaintext: Seq<u8>)
    requires
        id.len() == 32,
        plaintext.len() <= u32::MAX,
    ensures
        decode_inbox_spec(inbox_record_spec(generation, id, plaintext)) == Some(
            (generation, id, plaintext),
        ),
{
    let b = inbox_record_spec(generation, id, plaintext);
    lemma_be8_round_trip(generation);
    lemma_be_bytes_len(plaintext.len(), 4);
    reveal_with_fuel(pow256, 5);
    lemma_be_value_of_bytes(plaintext.len(), 4);
    assert(b.subrange(0, 7) =~= inbox_magic_spec());
    assert(b.subrange(8, 16) =~= be8_bytes(generation));
    assert(b.subrange(16, 48) =~= id);
    assert(b.subrange(48, 52) =~= be_bytes(plaintext.len(), 4));
    assert(b.subrange(52, b.len() as int) =~= plaintext);
}

} // verus!
