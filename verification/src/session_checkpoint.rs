//! `SESSION_CHECKPOINT_V1`: a [`Session`] with the identity binding needed to
//! check, on reload, that a record belongs to the session asked for.
//!
//! The record is plaintext holding secret keys; its confidentiality and
//! integrity come only from the authenticated encrypted store it is kept in.
//! The checks here are structural: they do not show that a record is genuine
//! or current.
//!
//! Layout (integers big-endian):
//!
//! | offset | size | field                                   |
//! |-------:|-----:|-----------------------------------------|
//! |      0 |    7 | magic `ARCSESS`                         |
//! |      7 |    1 | version, `1`                            |
//! |      8 |    1 | role: `0` initiator, `1` responder      |
//! |      9 |    8 | generation                              |
//! |     17 |   32 | our X25519 identity public key          |
//! |     49 |   32 | peer X25519 identity public key         |
//! |     81 |   64 | associated data                         |
//! |    145 |    4 | ratchet record length                   |
//! |    149 |    … | `RATCHET_STATE_V1` record               |
//!
//! The associated data must be what X3DH produces for the stored role and
//! identities: initiator key, then responder key. A record whose AD disagrees
//! with its own role and identities is rejected, not corrected.

use vstd::prelude::*;

use crate::buf::{append_bytes, array32_at, array64_at, array8_at, bytes_eq, bytes_to_vec};
use crate::bytes::{
    be8_bytes, be8_value, be_bytes, be_value, lemma_be8_bytes_of_value, lemma_be8_round_trip,
    lemma_be_bytes_len, lemma_be_value_of_bytes, lemma_bytes_of_be_value, pow256, u32_from_be,
    u32_to_be, u64_from_be, u64_to_be,
};
use crate::ratchet::checkpoint::{
    decode_spec, encode_error, lemma_checkpoint_round_trip, lemma_decoded_record_is_canonical,
    checkpoint_error_message, push_message, record_spec, u32_at, CheckpointError,
    RATCHET_CHECKPOINT_MAX_LEN,
};
use crate::ratchet::{ratchet_wf, DoubleRatchet, RatchetState};
use crate::session::Session;
use crate::text::{
    decimal_spec, hex_spec, lemma_encode_utf8_len, lemma_hex_injective, lemma_hex_len, push_decimal,
    push_hex, push_str,
};
use vstd::utf8::encode_utf8;

verus! {

/// Current `SESSION_CHECKPOINT_V1` format version.
pub const SESSION_CHECKPOINT_VERSION: u8 = 1;

/// Length of the associated data, in bytes.
pub const AD_LEN: usize = 64;

/// Length of everything before the ratchet record.
pub const HEADER_LEN: usize = 149;

/// Largest valid `SESSION_CHECKPOINT_V1` record, in bytes.
pub const SESSION_CHECKPOINT_MAX_LEN: usize = 136331;

/// Which side of X3DH this device was; it fixes the order of the identity
/// keys in the associated data.
#[derive(Debug, Clone, Copy, PartialEq, Eq, Structural)]
pub enum SessionRole {
    Initiator,
    Responder,
}

/// The identities a caller expects a stored session to be bound to.
#[derive(Debug, Clone, Copy, PartialEq, Eq)]
pub struct SessionBinding {
    pub our_identity_pk: [u8; 32],
    pub peer_identity_pk: [u8; 32],
}

/// A session rebuilt from a record, with the metadata stored beside it.
pub struct RestoredSession {
    pub session: Session,
    pub role: SessionRole,
    pub generation: u64,
}

/// Why a session checkpoint could not be written or read. No variant carries
/// key material.
#[derive(Debug, Clone, PartialEq, Eq)]
pub enum SessionCheckpointError {
    Truncated { actual: usize },
    Oversized { actual: usize },
    BadMagic,
    UnsupportedVersion(u8),
    UnknownRole(u8),
    /// The record is for a different local identity than expected.
    OurIdentityMismatch,
    /// The record is for a different peer than expected.
    PeerIdentityMismatch,
    /// The AD does not match the role and identities it is stored with.
    AdMismatch,
    LengthMismatch { expected: usize, actual: usize },
    Ratchet(CheckpointError),
}

/// The message of a session checkpoint error, naming the offending value.
pub open spec fn session_error_message(e: SessionCheckpointError) -> Seq<char> {
    match e {
        SessionCheckpointError::Truncated { actual } => "session checkpoint is "@ + decimal_spec(
            actual as nat,
        ) + " bytes; at least 149 required"@,
        SessionCheckpointError::Oversized { actual } => "session checkpoint is "@ + decimal_spec(
            actual as nat,
        ) + " bytes; limit is 136331"@,
        SessionCheckpointError::BadMagic => "not a session checkpoint"@,
        SessionCheckpointError::UnsupportedVersion(v) => "unsupported session checkpoint version "@
            + decimal_spec(v as nat),
        SessionCheckpointError::UnknownRole(r) => "unknown session role "@ + decimal_spec(r as nat),
        SessionCheckpointError::OurIdentityMismatch =>
            "session checkpoint belongs to another local identity"@,
        SessionCheckpointError::PeerIdentityMismatch => "session checkpoint belongs to another peer"@,
        SessionCheckpointError::AdMismatch =>
            "session associated data does not match its role and identities"@,
        SessionCheckpointError::LengthMismatch { expected, actual } => "session checkpoint length "@
            + decimal_spec(actual as nat) + " does not match "@ + decimal_spec(expected as nat)
            + " implied by its header"@,
        SessionCheckpointError::Ratchet(e) => "invalid ratchet state: "@ + checkpoint_error_message(e),
    }
}

impl SessionCheckpointError {
    /// The error message.
    pub fn to_string(&self) -> (s: String)
        ensures
            s@ == session_error_message(*self),
    {
        let mut s = String::new();
        match self {
            SessionCheckpointError::Truncated { actual } => {
                push_str(&mut s, "session checkpoint is ");
                push_decimal(&mut s, *actual as u64);
                push_str(&mut s, " bytes; at least 149 required");
            },
            SessionCheckpointError::Oversized { actual } => {
                push_str(&mut s, "session checkpoint is ");
                push_decimal(&mut s, *actual as u64);
                push_str(&mut s, " bytes; limit is 136331");
            },
            SessionCheckpointError::BadMagic => push_str(&mut s, "not a session checkpoint"),
            SessionCheckpointError::UnsupportedVersion(v) => {
                push_str(&mut s, "unsupported session checkpoint version ");
                push_decimal(&mut s, *v as u64);
            },
            SessionCheckpointError::UnknownRole(r) => {
                push_str(&mut s, "unknown session role ");
                push_decimal(&mut s, *r as u64);
            },
            SessionCheckpointError::OurIdentityMismatch => push_str(
                &mut s,
                "session checkpoint belongs to another local identity",
            ),
            SessionCheckpointError::PeerIdentityMismatch => push_str(
                &mut s,
                "session checkpoint belongs to another peer",
            ),
            SessionCheckpointError::AdMismatch => push_str(
                &mut s,
                "session associated data does not match its role and identities",
            ),
            SessionCheckpointError::LengthMismatch { expected, actual } => {
                push_str(&mut s, "session checkpoint length ");
                push_decimal(&mut s, *actual as u64);
                push_str(&mut s, " does not match ");
                push_decimal(&mut s, *expected as u64);
                push_str(&mut s, " implied by its header");
            },
            SessionCheckpointError::Ratchet(e) => {
                push_str(&mut s, "invalid ratchet state: ");
                push_message(&mut s, e);
            },
        }
        s
    }

    /// The ratchet checkpoint error underneath, for the `Ratchet` variant.
    pub fn source(&self) -> (r: Option<&CheckpointError>)
        ensures
            r is Some <==> self is Ratchet,
            r matches Some(e) ==> *self == SessionCheckpointError::Ratchet(*e),
    {
        match self {
            SessionCheckpointError::Ratchet(e) => Some(e),
            _ => None,
        }
    }
}

// ── The format, stated once ───────────────────────────────────────────────────

/// The magic bytes `ARCSESS`.
pub open spec fn magic_spec() -> Seq<u8> {
    seq![0x41u8, 0x52u8, 0x43u8, 0x53u8, 0x45u8, 0x53u8, 0x53u8]
}

pub open spec fn role_byte(r: SessionRole) -> u8 {
    match r {
        SessionRole::Initiator => 0,
        SessionRole::Responder => 1,
    }
}

pub open spec fn role_of_byte(b: u8) -> Option<SessionRole> {
    if b == 0 {
        Some(SessionRole::Initiator)
    } else if b == 1 {
        Some(SessionRole::Responder)
    } else {
        None
    }
}

/// The associated data X3DH derives for `role`: initiator key, then
/// responder key.
pub open spec fn expected_ad_spec(role: SessionRole, our: Seq<u8>, peer: Seq<u8>) -> Seq<u8> {
    match role {
        SessionRole::Initiator => our + peer,
        SessionRole::Responder => peer + our,
    }
}

/// The record of the given fields around the ratchet record `inner`.
pub open spec fn session_record_spec(
    role: SessionRole,
    generation: u64,
    our: Seq<u8>,
    peer: Seq<u8>,
    ad: Seq<u8>,
    inner: Seq<u8>,
) -> Seq<u8> {
    magic_spec() + seq![1u8, role_byte(role)] + be8_bytes(generation) + our + peer + ad + be_bytes(
        inner.len(),
        4,
    ) + inner
}

/// What encoding a session with ratchet state `v` gives.
pub open spec fn session_encode_spec(
    v: RatchetState,
    ad: Seq<u8>,
    peer: Seq<u8>,
    role: SessionRole,
    our: Seq<u8>,
    generation: u64,
) -> Result<Seq<u8>, SessionCheckpointError> {
    if ad != expected_ad_spec(role, our, peer) {
        Err(SessionCheckpointError::AdMismatch)
    } else {
        match encode_error(v) {
            Some(e) => Err(SessionCheckpointError::Ratchet(e)),
            None => Ok(session_record_spec(role, generation, our, peer, ad, record_spec(v))),
        }
    }
}

/// What a record decodes to: role, generation, peer key, associated data and
/// ratchet state.
pub struct DecodedSession {
    pub role: SessionRole,
    pub generation: u64,
    pub peer: Seq<u8>,
    pub ad: Seq<u8>,
    pub ratchet: RatchetState,
}

/// What decoding `b` against the expected identities gives: the session, or
/// the first rule it breaks.
pub open spec fn session_decode_spec(b: Seq<u8>, our: Seq<u8>, peer: Seq<u8>) -> Result<
    DecodedSession,
    SessionCheckpointError,
> {
    if b.len() > SESSION_CHECKPOINT_MAX_LEN {
        Err(SessionCheckpointError::Oversized { actual: b.len() as usize })
    } else if b.len() < HEADER_LEN {
        Err(SessionCheckpointError::Truncated { actual: b.len() as usize })
    } else if b.subrange(0, 7) != magic_spec() {
        Err(SessionCheckpointError::BadMagic)
    } else if b[7] != SESSION_CHECKPOINT_VERSION {
        Err(SessionCheckpointError::UnsupportedVersion(b[7]))
    } else {
        match role_of_byte(b[8]) {
            None => Err(SessionCheckpointError::UnknownRole(b[8])),
            Some(role) => if b.subrange(17, 49) != our {
                Err(SessionCheckpointError::OurIdentityMismatch)
            } else if b.subrange(49, 81) != peer {
                Err(SessionCheckpointError::PeerIdentityMismatch)
            } else if b.subrange(81, 145) != expected_ad_spec(role, our, peer) {
                Err(SessionCheckpointError::AdMismatch)
            } else if b.len() != HEADER_LEN + u32_at(b, 145) {
                Err(
                    SessionCheckpointError::LengthMismatch {
                        expected: (HEADER_LEN + u32_at(b, 145)) as usize,
                        actual: b.len() as usize,
                    },
                )
            } else {
                match decode_spec(b.subrange(149, b.len() as int)) {
                    Err(e) => Err(SessionCheckpointError::Ratchet(e)),
                    Ok(v) => Ok(
                        DecodedSession {
                            role,
                            generation: be8_value(b.subrange(9, 17)) as u64,
                            peer: b.subrange(49, 81),
                            ad: b.subrange(81, 145),
                            ratchet: v,
                        },
                    ),
                }
            },
        }
    }
}

// ── Executable encoding and decoding ──────────────────────────────────────────

fn magic() -> (m: [u8; 7])
    ensures
        m@ == magic_spec(),
{
    let m = [0x41u8, 0x52u8, 0x43u8, 0x53u8, 0x45u8, 0x53u8, 0x53u8];
    assert(m@ =~= magic_spec());
    m
}

impl SessionRole {
    fn to_byte(self) -> (b: u8)
        ensures
            b == role_byte(self),
    {
        match self {
            SessionRole::Initiator => 0,
            SessionRole::Responder => 1,
        }
    }

    fn from_byte(b: u8) -> (r: Option<Self>)
        ensures
            r == role_of_byte(b),
    {
        if b == 0 {
            Some(SessionRole::Initiator)
        } else if b == 1 {
            Some(SessionRole::Responder)
        } else {
            None
        }
    }

    /// The associated data X3DH derives for this role.
    pub fn expected_ad(self, our: &[u8; 32], peer: &[u8; 32]) -> (ad: [u8; 64])
        ensures
            ad@ == expected_ad_spec(self, our@, peer@),
    {
        let mut v: Vec<u8> = Vec::with_capacity(AD_LEN);
        match self {
            SessionRole::Initiator => {
                append_bytes(&mut v, our.as_slice());
                append_bytes(&mut v, peer.as_slice());
            },
            SessionRole::Responder => {
                append_bytes(&mut v, peer.as_slice());
                append_bytes(&mut v, our.as_slice());
            },
        }
        let ad = array64_at(v.as_slice(), 0);
        assert(ad@ =~= v@);
        ad
    }
}

/// Encodes `session` as a `SESSION_CHECKPOINT_V1` record. A session whose AD
/// is not the X3DH AD for `role`, `our_identity_pk` and its own peer key is
/// refused, so an inconsistent session is never written.
pub fn encode_session_checkpoint(
    session: &Session,
    role: SessionRole,
    our_identity_pk: &[u8; 32],
    generation: u64,
) -> (r: Result<Vec<u8>, SessionCheckpointError>)
    requires
        session.ratchet.wf(),
    ensures
        match session_encode_spec(
            session.ratchet@,
            session.ad@,
            session.peer_identity_pk@,
            role,
            our_identity_pk@,
            generation,
        ) {
            Ok(b) => r matches Ok(v) && v@ == b,
            Err(e) => r matches Err(x) && x == e,
        },
{
    encode_parts(
        &session.ratchet,
        session.ad.as_slice(),
        &session.peer_identity_pk,
        role,
        our_identity_pk,
        generation,
    )
}

/// Encodes the parts of a session as a `SESSION_CHECKPOINT_V1` record.
pub fn encode_parts(
    ratchet: &DoubleRatchet,
    ad: &[u8],
    peer_identity_pk: &[u8; 32],
    role: SessionRole,
    our_identity_pk: &[u8; 32],
    generation: u64,
) -> (r: Result<Vec<u8>, SessionCheckpointError>)
    requires
        ratchet.wf(),
    ensures
        match session_encode_spec(ratchet@, ad@, peer_identity_pk@, role, our_identity_pk@, generation) {
            Ok(b) => r matches Ok(v) && v@ == b,
            Err(e) => r matches Err(x) && x == e,
        },
{
    let expected = role.expected_ad(our_identity_pk, peer_identity_pk);
    if !bytes_eq(ad, expected.as_slice()) {
        return Err(SessionCheckpointError::AdMismatch);
    }
    let inner = match ratchet.to_checkpoint() {
        Ok(v) => v,
        Err(e) => {
            return Err(SessionCheckpointError::Ratchet(e));
        },
    };
    proof {
        lemma_checkpoint_round_trip(ratchet@);
    }
    let mut out: Vec<u8> = Vec::with_capacity(HEADER_LEN + inner.len());
    let m = magic();
    append_bytes(&mut out, m.as_slice());
    out.push(SESSION_CHECKPOINT_VERSION);
    out.push(role.to_byte());
    let g = u64_to_be(generation);
    append_bytes(&mut out, g.as_slice());
    append_bytes(&mut out, our_identity_pk.as_slice());
    append_bytes(&mut out, peer_identity_pk.as_slice());
    append_bytes(&mut out, ad);
    let n = u32_to_be(inner.len() as u32);
    append_bytes(&mut out, n.as_slice());
    append_bytes(&mut out, inner.as_slice());
    assert(out@ =~= session_record_spec(
        role,
        generation,
        our_identity_pk@,
        peer_identity_pk@,
        ad@,
        record_spec(ratchet@),
    ));
    Ok(out)
}

/// Rebuilds a session from a `SESSION_CHECKPOINT_V1` record and checks that
/// it is bound to `expected`. The whole record is rejected on any mismatch;
/// nothing is repaired. Success does not show that the record is the newest
/// one written.
pub fn decode_session_checkpoint(record: &[u8], expected: &SessionBinding) -> (r: Result<
    RestoredSession,
    SessionCheckpointError,
>)
    ensures
        match session_decode_spec(record@, expected.our_identity_pk@, expected.peer_identity_pk@) {
            Ok(d) => r matches Ok(s) && s.role == d.role && s.generation == d.generation
                && s.session.peer_identity_pk@ == d.peer && s.session.ad@ == d.ad
                && s.session.ratchet@ == d.ratchet && s.session.ratchet.wf(),
            Err(e) => r matches Err(x) && x == e,
        },
{
    let len = record.len();
    if len > SESSION_CHECKPOINT_MAX_LEN {
        return Err(SessionCheckpointError::Oversized { actual: len });
    }
    if len < HEADER_LEN {
        return Err(SessionCheckpointError::Truncated { actual: len });
    }
    let m = magic();
    if !bytes_eq(&record[0..7], m.as_slice()) {
        return Err(SessionCheckpointError::BadMagic);
    }
    if record[7] != SESSION_CHECKPOINT_VERSION {
        return Err(SessionCheckpointError::UnsupportedVersion(record[7]));
    }
    let role = match SessionRole::from_byte(record[8]) {
        Some(role) => role,
        None => {
            return Err(SessionCheckpointError::UnknownRole(record[8]));
        },
    };
    let generation = u64_from_be(&record[9..17]);
    let our = array32_at(record, 17);
    let peer = array32_at(record, 49);
    if !bytes_eq(our.as_slice(), expected.our_identity_pk.as_slice()) {
        return Err(SessionCheckpointError::OurIdentityMismatch);
    }
    if !bytes_eq(peer.as_slice(), expected.peer_identity_pk.as_slice()) {
        return Err(SessionCheckpointError::PeerIdentityMismatch);
    }
    let ad = array64_at(record, 81);
    let want = role.expected_ad(&our, &peer);
    if !bytes_eq(ad.as_slice(), want.as_slice()) {
        return Err(SessionCheckpointError::AdMismatch);
    }
    let inner_len = u32_from_be(&record[145..149]);
    let expected_len: u64 = 149u64 + inner_len as u64;
    if len as u64 != expected_len {
        return Err(
            SessionCheckpointError::LengthMismatch { expected: expected_len as usize, actual: len },
        );
    }
    let inner = &record[149..len];
    match DoubleRatchet::from_checkpoint(inner) {
        Err(e) => Err(SessionCheckpointError::Ratchet(e)),
        Ok(ratchet) => Ok(
            RestoredSession {
                session: Session { ratchet, ad: bytes_to_vec(ad.as_slice()), peer_identity_pk: peer },
                role,
                generation,
            },
        ),
    }
}

/// The store key for the session with `peer`: `session:v1/` and the key in
/// lower-case hexadecimal.
pub open spec fn session_storage_key_spec(peer: Seq<u8>) -> Seq<char> {
    "session:v1/"@ + hex_spec(peer)
}

/// The store key for the session with `peer_identity_pk`.
pub fn session_storage_key(peer_identity_pk: &[u8; 32]) -> (k: String)
    ensures
        k@ == session_storage_key_spec(peer_identity_pk@),
{
    let mut key = "session:v1/".to_owned();
    push_hex(&mut key, peer_identity_pk.as_slice());
    key
}

/// A session's store key is 75 characters, at most 300 bytes of UTF-8.
pub proof fn lemma_storage_key_len(peer: Seq<u8>)
    requires
        peer.len() == 32,
    ensures
        session_storage_key_spec(peer).len() == 75,
        encode_utf8(session_storage_key_spec(peer)).len() <= 300,
{
    reveal_strlit("session:v1/");
    lemma_hex_len(peer);
    lemma_encode_utf8_len(session_storage_key_spec(peer));
}

// ── Laws ──────────────────────────────────────────────────────────────────────

/// Each peer has a store key of its own.
pub proof fn lemma_storage_key_is_per_peer(a: Seq<u8>, b: Seq<u8>)
    requires
        session_storage_key_spec(a) == session_storage_key_spec(b),
    ensures
        a == b,
{
    let p = "session:v1/"@;
    assert(session_storage_key_spec(a).subrange(p.len() as int, session_storage_key_spec(a).len() as int) =~= hex_spec(a));
    assert(session_storage_key_spec(b).subrange(p.len() as int, session_storage_key_spec(b).len() as int) =~= hex_spec(b));
    lemma_hex_injective(a, b);
}

/// Every session this code can write is read back exactly against the
/// identities it was written with: role, generation, peer, associated data
/// and the complete ratchet state.
#[verifier::spinoff_prover]
#[verifier::rlimit(40)]
pub proof fn lemma_session_checkpoint_round_trip(
    v: RatchetState,
    ad: Seq<u8>,
    peer: Seq<u8>,
    role: SessionRole,
    our: Seq<u8>,
    generation: u64,
)
    requires
        ratchet_wf(v),
        our.len() == 32,
        peer.len() == 32,
        session_encode_spec(v, ad, peer, role, our, generation) is Ok,
    ensures
        session_decode_spec(session_encode_spec(v, ad, peer, role, our, generation)->Ok_0, our, peer)
            == Ok::<DecodedSession, SessionCheckpointError>(
            DecodedSession { role, generation, peer, ad, ratchet: v },
        ),
{
    let inner = record_spec(v);
    lemma_checkpoint_round_trip(v);
    let b = session_record_spec(role, generation, our, peer, ad, inner);
    lemma_be8_round_trip(generation);
    lemma_be_bytes_len(inner.len(), 4);
    reveal_with_fuel(pow256, 5);
    lemma_be_value_of_bytes(inner.len(), 4);
    assert(ad.len() == 64);
    assert(b.subrange(0, 7) =~= magic_spec());
    assert(b.subrange(9, 17) =~= be8_bytes(generation));
    assert(b.subrange(17, 49) =~= our);
    assert(b.subrange(49, 81) =~= peer);
    assert(b.subrange(81, 145) =~= ad);
    assert(b.subrange(145, 149) =~= be_bytes(inner.len(), 4));
    assert(b.subrange(149, b.len() as int) =~= inner);
}

/// A record that decodes is exactly what encoding the decoded session gives:
/// there is one record for each session.
pub proof fn lemma_session_record_is_canonical(b: Seq<u8>, our: Seq<u8>, peer: Seq<u8>)
    requires
        session_decode_spec(b, our, peer) is Ok,
    ensures
        ({
            let d = session_decode_spec(b, our, peer)->Ok_0;
            &&& ratchet_wf(d.ratchet)
            &&& session_encode_spec(d.ratchet, d.ad, d.peer, d.role, our, d.generation) == Ok::<
                Seq<u8>,
                SessionCheckpointError,
            >(b)
        }),
{
    let d = session_decode_spec(b, our, peer)->Ok_0;
    let inner = b.subrange(149, b.len() as int);
    lemma_decoded_record_is_canonical(inner);
    lemma_be8_bytes_of_value(b.subrange(9, 17));
    lemma_bytes_of_be_value(b.subrange(145, 149));
    reveal_with_fuel(pow256, 5);
    assert(inner.len() == be_value(b.subrange(145, 149)));
    assert(b[8] == role_byte(d.role));
    assert(b.subrange(145, 149) =~= be_bytes(inner.len(), 4));
    assert(b =~= b.subrange(0, 7) + seq![b[7], b[8]] + b.subrange(9, 17) + b.subrange(17, 49)
        + b.subrange(49, 81) + b.subrange(81, 145) + b.subrange(145, 149) + inner);
}

} // verus!
