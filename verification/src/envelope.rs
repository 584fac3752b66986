//! `TRANSPORT_ENVELOPE_V1`: the fixed 24-byte frame that wraps every byte put
//! on a transport.
//!
//! ```text
//! off  len  field              encoding
//!   0    1  envelope_version   u8, must be 0x01
//!   1    1  message_type       u8, one of four values
//!   2    2  reserved           u16 big-endian, must be 0x0000
//!   4   16  routing_tag        opaque bytes
//!  20    4  payload_length     u32 big-endian
//!  24    N  payload
//! ```
//!
//! The module encodes and parses bytes; it neither opens connections nor
//! decides what a message means. Parsing successfully means the bytes are
//! well-formed, nothing more. None of the errors may be sent to a peer.
//!
//! `payload_length` is attacker-controlled, so it is checked against
//! [`MAX_PAYLOAD_LEN`] from the 24 header bytes alone, before any payload
//! buffer could be sized from it.

use vstd::prelude::*;

use crate::text::{decimal_spec, hex_width_spec, push_decimal, push_hex_width, push_str};

use crate::buf::{all_zero, append_bytes};
use crate::bytes::{
    be_bytes, be_value, lemma_be_bytes_len, lemma_be_value_2, lemma_be_value_of_bytes,
    lemma_bytes_of_be_value, pow256, u32_from_be, u32_to_be,
};

verus! {

/// The only envelope version this build speaks.
pub const ENVELOPE_VERSION_V1: u8 = 0x01;

/// Fixed header width, identical for every message type.
pub const ENVELOPE_HEADER_LEN: usize = 24;

/// Width of the routing tag field.
pub const ROUTING_TAG_LEN: usize = 16;

/// The one encoding of "this message carries no routing tag": all zero.
pub fn absent_routing_tag() -> (g: [u8; 16])
    ensures
        is_absent_tag(g@),
        g@ == Seq::new(16, |i: int| 0u8),
{
    let g = [0u8; 16];
    assert(g@ =~= Seq::new(16, |i: int| 0u8));
    g
}

/// Largest payload any envelope may declare or carry, in bytes.
pub const MAX_PAYLOAD_LEN: usize = 65_536;

/// Largest complete frame: header plus the largest permitted payload.
pub const MAX_ENVELOPE_LEN: usize = ENVELOPE_HEADER_LEN + MAX_PAYLOAD_LEN;

/// `PREKEY_BUNDLE_V1`, the payload of a [`MessageType::PrekeyResponse`].
pub const PREKEY_BUNDLE_V1_LEN: usize = 204;

/// `INITIATOR_HANDSHAKE_V1`, the payload of a [`MessageType::SessionInit`].
pub const INITIATOR_HANDSHAKE_V1_LEN: usize = 84;

/// Serialized Double Ratchet header: `dh(32) || pn(4) || n(4)`.
pub const RATCHET_HEADER_LEN: usize = 40;

/// XChaCha20-Poly1305 nonce, transmitted in front of the ciphertext.
pub const XCHACHA_NONCE_LEN: usize = 24;

/// Poly1305 authentication tag appended to the ciphertext.
pub const POLY1305_TAG_LEN: usize = 16;

/// Smallest possible [`MessageType::RatchetMessage`] payload: the framing
/// overhead around an empty plaintext.
pub const RATCHET_MIN_PAYLOAD_LEN: usize = RATCHET_HEADER_LEN + XCHACHA_NONCE_LEN
    + POLY1305_TAG_LEN;

/// Offset of the version byte.
pub const OFF_VERSION: usize = 0;

/// Offset of the message type byte.
pub const OFF_MESSAGE_TYPE: usize = 1;

/// Offset of the two reserved bytes.
pub const OFF_RESERVED: usize = 2;

/// Offset of the routing tag.
pub const OFF_ROUTING_TAG: usize = 4;

/// Offset of the big-endian payload length.
pub const OFF_PAYLOAD_LENGTH: usize = 20;

/// What a frame carries. Four types, and no others.
#[derive(Debug, Clone, Copy, PartialEq, Eq, Structural)]
pub enum MessageType {
    /// Ask a peer for its prekey bundle. Empty payload.
    PrekeyRequest,
    /// A peer's `PREKEY_BUNDLE_V1`, in answer to a request.
    PrekeyResponse,
    /// An `INITIATOR_HANDSHAKE_V1` opening a session.
    SessionInit,
    /// A Double Ratchet message on an established session.
    RatchetMessage,
}

/// Why some bytes are not a valid envelope. These never leave the process.
#[allow(inconsistent_fields)]
#[derive(Debug, Clone, PartialEq, Eq, Structural)]
pub enum EnvelopeError {
    /// Fewer bytes are available than the frame needs.
    TruncatedFrame { needed: usize, available: usize },
    /// The version byte is not [`ENVELOPE_VERSION_V1`].
    UnsupportedEnvelopeVersion { version: u8 },
    /// The type byte is none of the four defined values.
    UnknownMessageType { message_type: u8 },
    /// The reserved field is not zero.
    ReservedNotZero { reserved: u16 },
    /// A type that must not name its sender carried a non-zero routing tag.
    RoutingTagMustBeZero { message_type: MessageType },
    /// A type that must name its sender carried the all-zero routing tag.
    RoutingTagMustBeSet { message_type: MessageType },
    /// The declared payload exceeds [`MAX_PAYLOAD_LEN`].
    PayloadTooLarge { declared: u32 },
    /// The declared payload is outside the range this message type permits.
    WrongPayloadLength { message_type: MessageType, declared: u32, min: u32, max: u32 },
}

// ── The wire rules, stated once ───────────────────────────────────────────────

/// The wire byte of a message type.
pub open spec fn type_byte(t: MessageType) -> u8 {
    match t {
        MessageType::PrekeyRequest => 1,
        MessageType::PrekeyResponse => 2,
        MessageType::SessionInit => 3,
        MessageType::RatchetMessage => 4,
    }
}

/// The message type a wire byte names, if any.
pub open spec fn type_of_byte(b: u8) -> Option<MessageType> {
    if b == 1 {
        Some(MessageType::PrekeyRequest)
    } else if b == 2 {
        Some(MessageType::PrekeyResponse)
    } else if b == 3 {
        Some(MessageType::SessionInit)
    } else if b == 4 {
        Some(MessageType::RatchetMessage)
    } else {
        None
    }
}

/// Inclusive payload length bounds of a message type.
pub open spec fn length_bounds(t: MessageType) -> (u32, u32) {
    match t {
        MessageType::PrekeyRequest => (0, 0),
        MessageType::PrekeyResponse => (204, 204),
        MessageType::SessionInit => (84, 84),
        MessageType::RatchetMessage => (80, 65536),
    }
}

/// Whether a message type names its sender with a routing tag.
pub open spec fn names_sender(t: MessageType) -> bool {
    t == MessageType::SessionInit || t == MessageType::RatchetMessage
}

/// Whether a routing tag is the all-zero "absent" tag.
pub open spec fn is_absent_tag(tag: Seq<u8>) -> bool {
    forall|i: int| 0 <= i < tag.len() ==> tag[i] == 0
}

/// The routing tag rule: tagged types need a non-zero tag, the others the zero tag.
pub open spec fn routing_tag_error(t: MessageType, tag: Seq<u8>) -> Option<EnvelopeError> {
    if !names_sender(t) && !is_absent_tag(tag) {
        Some(EnvelopeError::RoutingTagMustBeZero { message_type: t })
    } else if names_sender(t) && is_absent_tag(tag) {
        Some(EnvelopeError::RoutingTagMustBeSet { message_type: t })
    } else {
        None
    }
}

/// The length rule: the absolute ceiling first, then the type's own bounds.
pub open spec fn payload_length_error(t: MessageType, len: u32) -> Option<EnvelopeError> {
    let (min, max) = length_bounds(t);
    if len > 65536 {
        Some(EnvelopeError::PayloadTooLarge { declared: len })
    } else if len < min || len > max {
        Some(EnvelopeError::WrongPayloadLength { message_type: t, declared: len, min, max })
    } else {
        None
    }
}

/// The first rule a header breaks, in wire order, if any.
pub open spec fn header_error(t: MessageType, tag: Seq<u8>, len: u32) -> Option<EnvelopeError> {
    match routing_tag_error(t, tag) {
        Some(e) => Some(e),
        None => payload_length_error(t, len),
    }
}

/// The canonical 24 bytes of a header.
pub open spec fn header_bytes_spec(t: MessageType, tag: Seq<u8>, len: u32) -> Seq<u8> {
    seq![1u8, type_byte(t), 0u8, 0u8] + tag + be_bytes(len as nat, 4)
}

/// A decoded header: type, routing tag and declared payload length.
pub type HeaderModel = (MessageType, Seq<u8>, u32);

/// What parsing the front of `b` as a header yields.
pub open spec fn parse_header_spec(b: Seq<u8>) -> Result<HeaderModel, EnvelopeError> {
    if b.len() < 24 {
        Err(EnvelopeError::TruncatedFrame { needed: 24, available: b.len() as usize })
    } else if b[0] != 1 {
        Err(EnvelopeError::UnsupportedEnvelopeVersion { version: b[0] })
    } else {
        match type_of_byte(b[1]) {
            None => Err(EnvelopeError::UnknownMessageType { message_type: b[1] }),
            Some(t) => if b[2] != 0 || b[3] != 0 {
                Err(EnvelopeError::ReservedNotZero { reserved: (b[2] * 256 + b[3]) as u16 })
            } else {
                let tag = b.subrange(4, 20);
                let len = be_value(b.subrange(20, 24)) as u32;
                match header_error(t, tag, len) {
                    Some(e) => Err(e),
                    None => Ok((t, tag, len)),
                }
            },
        }
    }
}

/// What parsing one whole frame from the front of `b` yields.
pub open spec fn parse_frame_spec(b: Seq<u8>) -> Result<(HeaderModel, Seq<u8>), EnvelopeError> {
    match parse_header_spec(b) {
        Err(e) => Err(e),
        Ok(h) => {
            let frame_len = 24 + h.2;
            if b.len() < frame_len {
                Err(
                    EnvelopeError::TruncatedFrame {
                        needed: frame_len as usize,
                        available: b.len() as usize,
                    },
                )
            } else {
                Ok((h, b.subrange(24, frame_len as int)))
            }
        },
    }
}

/// The frame `encode` builds for a payload, or the rule it breaks.
pub open spec fn encode_spec(t: MessageType, tag: Seq<u8>, payload: Seq<u8>) -> Result<
    Seq<u8>,
    EnvelopeError,
> {
    if payload.len() > 65536 {
        Err(
            EnvelopeError::PayloadTooLarge {
                declared: if payload.len() <= u32::MAX {
                    payload.len() as u32
                } else {
                    u32::MAX
                },
            },
        )
    } else {
        match header_error(t, tag, payload.len() as u32) {
            Some(e) => Err(e),
            None => Ok(header_bytes_spec(t, tag, payload.len() as u32) + payload),
        }
    }
}

impl MessageType {
    /// The wire byte for this type.
    pub fn as_byte(self) -> (b: u8)
        ensures
            b == type_byte(self),
    {
        match self {
            MessageType::PrekeyRequest => 1,
            MessageType::PrekeyResponse => 2,
            MessageType::SessionInit => 3,
            MessageType::RatchetMessage => 4,
        }
    }

    /// Decodes a wire byte, rejecting anything outside the four defined values.
    pub fn from_byte(byte: u8) -> (r: Result<Self, EnvelopeError>)
        ensures
            r == match type_of_byte(byte) {
                Some(t) => Ok(t),
                None => Err(EnvelopeError::UnknownMessageType { message_type: byte }),
            },
    {
        if byte == 1 {
            Ok(MessageType::PrekeyRequest)
        } else if byte == 2 {
            Ok(MessageType::PrekeyResponse)
        } else if byte == 3 {
            Ok(MessageType::SessionInit)
        } else if byte == 4 {
            Ok(MessageType::RatchetMessage)
        } else {
            Err(EnvelopeError::UnknownMessageType { message_type: byte })
        }
    }

    /// Inclusive `(min, max)` payload length for this type.
    pub fn payload_length_bounds(self) -> (r: (u32, u32))
        ensures
            r == length_bounds(self),
    {
        match self {
            MessageType::PrekeyRequest => (0, 0),
            MessageType::PrekeyResponse => (204, 204),
            MessageType::SessionInit => (84, 84),
            MessageType::RatchetMessage => (80, 65536),
        }
    }

    /// Whether this type names its sender with a routing tag.
    pub fn carries_routing_tag(self) -> (r: bool)
        ensures
            r == names_sender(self),
    {
        match self {
            MessageType::SessionInit | MessageType::RatchetMessage => true,
            _ => false,
        }
    }
}

fn check_routing_tag(message_type: MessageType, routing_tag: &[u8; 16]) -> (r: Result<
    (),
    EnvelopeError,
>)
    ensures
        r == match routing_tag_error(message_type, routing_tag@) {
            Some(e) => Err(e),
            None => Ok(()),
        },
{
    let is_absent = all_zero(routing_tag.as_slice());
    let carries = message_type.carries_routing_tag();
    if !carries && !is_absent {
        Err(EnvelopeError::RoutingTagMustBeZero { message_type })
    } else if carries && is_absent {
        Err(EnvelopeError::RoutingTagMustBeSet { message_type })
    } else {
        Ok(())
    }
}

fn check_payload_length(message_type: MessageType, payload_length: u32) -> (r: Result<
    (),
    EnvelopeError,
>)
    ensures
        r == match payload_length_error(message_type, payload_length) {
            Some(e) => Err(e),
            None => Ok(()),
        },
{
    if payload_length > 65536 {
        return Err(EnvelopeError::PayloadTooLarge { declared: payload_length });
    }
    let (min, max) = message_type.payload_length_bounds();
    if payload_length < min || payload_length > max {
        return Err(
            EnvelopeError::WrongPayloadLength {
                message_type,
                declared: payload_length,
                min,
                max,
            },
        );
    }
    Ok(())
}

/// A validated envelope header. Construction enforces every rule a parser
/// enforces, so a header that can be serialized is a header that will parse
/// back.
#[derive(Debug, Clone, Copy, PartialEq, Eq)]
pub struct EnvelopeHeader {
    message_type: MessageType,
    routing_tag: [u8; 16],
    payload_length: u32,
}

impl View for EnvelopeHeader {
    type V = HeaderModel;

    closed spec fn view(&self) -> HeaderModel {
        (self.message_type, self.routing_tag@, self.payload_length)
    }
}

impl EnvelopeHeader {
    #[verifier::type_invariant]
    spec fn valid(self) -> bool {
        header_error(self.message_type, self.routing_tag@, self.payload_length) is None
    }

    /// Builds a header, rejecting any combination a peer would reject.
    pub fn new(message_type: MessageType, routing_tag: [u8; 16], payload_length: u32) -> (r: Result<
        Self,
        EnvelopeError,
    >)
        ensures
            match header_error(message_type, routing_tag@, payload_length) {
                Some(e) => r == Err::<Self, EnvelopeError>(e),
                None => r matches Ok(h) && h@ == (message_type, routing_tag@, payload_length),
            },
    {
        check_routing_tag(message_type, &routing_tag)?;
        check_payload_length(message_type, payload_length)?;
        Ok(Self { message_type, routing_tag, payload_length })
    }

    /// The canonical 24 bytes for this header; the only serializer of headers.
    pub fn to_bytes(&self) -> (out: [u8; 24])
        ensures
            out@ == header_bytes_spec(self@.0, self@.1, self@.2),
            header_error(self@.0, self@.1, self@.2) is None,
    {
        proof {
            use_type_invariant(self);
        }
        let t = self.message_type.as_byte();
        let g = &self.routing_tag;
        let l = u32_to_be(self.payload_length);
        let out = [
            ENVELOPE_VERSION_V1,
            t,
            0u8,
            0u8,
            g[0],
            g[1],
            g[2],
            g[3],
            g[4],
            g[5],
            g[6],
            g[7],
            g[8],
            g[9],
            g[10],
            g[11],
            g[12],
            g[13],
            g[14],
            g[15],
            l[0],
            l[1],
            l[2],
            l[3],
        ];
        proof {
            lemma_be_bytes_len(self.payload_length as nat, 4);
            assert(out@ =~= header_bytes_spec(self@.0, self@.1, self@.2));
        }
        out
    }

    pub fn message_type(&self) -> (t: MessageType)
        ensures
            t == self@.0,
    {
        self.message_type
    }

    pub fn routing_tag(&self) -> (g: &[u8; 16])
        ensures
            g@ == self@.1,
    {
        &self.routing_tag
    }

    pub fn payload_length(&self) -> (n: u32)
        ensures
            n == self@.2,
    {
        self.payload_length
    }
}

/// A header that came off the wire, kept together with the exact bytes it was
/// parsed from. Those bytes, not a re-serialization, are what associated data
/// must be built from.
#[derive(Debug, Clone, Copy, PartialEq, Eq)]
pub struct ReceivedHeader {
    bytes: [u8; 24],
    header: EnvelopeHeader,
}

impl View for ReceivedHeader {
    type V = (Seq<u8>, HeaderModel);

    closed spec fn view(&self) -> (Seq<u8>, HeaderModel) {
        (self.bytes@, self.header@)
    }
}

impl ReceivedHeader {
    #[verifier::type_invariant]
    spec fn canonical(self) -> bool {
        self.bytes@ == header_bytes_spec(self.header@.0, self.header@.1, self.header@.2)
    }

    /// The exact 24 bytes as received.
    pub fn header_bytes(&self) -> (b: &[u8; 24])
        ensures
            b@ == self@.0,
            b@ == header_bytes_spec(self@.1.0, self@.1.1, self@.1.2),
            header_error(self@.1.0, self@.1.1, self@.1.2) is None,
    {
        proof {
            use_type_invariant(self);
            use_type_invariant(&self.header);
        }
        &self.bytes
    }

    /// The decoded view of those bytes.
    pub fn header(&self) -> (h: &EnvelopeHeader)
        ensures
            h@ == self@.1,
    {
        &self.header
    }

    pub fn message_type(&self) -> (t: MessageType)
        ensures
            t == self@.1.0,
    {
        self.header.message_type
    }

    pub fn routing_tag(&self) -> (g: &[u8; 16])
        ensures
            g@ == self@.1.1,
    {
        &self.header.routing_tag
    }

    /// The payload length this header declares; already checked against
    /// [`MAX_PAYLOAD_LEN`] and the type's own bounds.
    pub fn payload_length(&self) -> (n: u32)
        ensures
            n == self@.1.2,
            n <= MAX_PAYLOAD_LEN,
    {
        proof {
            use_type_invariant(&self.header);
        }
        self.header.payload_length
    }
}

/// Parses and validates the 24-byte header at the front of `bytes`. Only the
/// first 24 bytes are read. Checks run in wire order.
pub fn parse_header(bytes: &[u8]) -> (r: Result<ReceivedHeader, EnvelopeError>)
    ensures
        match parse_header_spec(bytes@) {
            Ok(m) => r matches Ok(h) && h@ == (bytes@.subrange(0, 24), m),
            Err(e) => r == Err::<ReceivedHeader, EnvelopeError>(e),
        },
{
    if bytes.len() < ENVELOPE_HEADER_LEN {
        return Err(EnvelopeError::TruncatedFrame { needed: ENVELOPE_HEADER_LEN, available: bytes.len() });
    }
    let b = bytes;
    let raw: [u8; 24] = [
        b[0],
        b[1],
        b[2],
        b[3],
        b[4],
        b[5],
        b[6],
        b[7],
        b[8],
        b[9],
        b[10],
        b[11],
        b[12],
        b[13],
        b[14],
        b[15],
        b[16],
        b[17],
        b[18],
        b[19],
        b[20],
        b[21],
        b[22],
        b[23],
    ];
    assert(raw@ =~= bytes@.subrange(0, 24));
    let version = raw[0];
    if version != ENVELOPE_VERSION_V1 {
        return Err(EnvelopeError::UnsupportedEnvelopeVersion { version });
    }
    let message_type = MessageType::from_byte(raw[1])?;
    if raw[2] != 0 || raw[3] != 0 {
        let reserved: u16 = (raw[2] as u16) * 256 + (raw[3] as u16);
        return Err(EnvelopeError::ReservedNotZero { reserved });
    }
    let routing_tag: [u8; 16] = [
        raw[4],
        raw[5],
        raw[6],
        raw[7],
        raw[8],
        raw[9],
        raw[10],
        raw[11],
        raw[12],
        raw[13],
        raw[14],
        raw[15],
        raw[16],
        raw[17],
        raw[18],
        raw[19],
    ];
    assert(routing_tag@ =~= bytes@.subrange(4, 20));
    check_routing_tag(message_type, &routing_tag)?;
    let len_bytes = [raw[20], raw[21], raw[22], raw[23]];
    assert(len_bytes@ =~= bytes@.subrange(20, 24));
    let payload_length = u32_from_be(len_bytes.as_slice());
    check_payload_length(message_type, payload_length)?;
    proof {
        lemma_bytes_of_be_value(bytes@.subrange(20, 24));
        assert(raw@ =~= header_bytes_spec(message_type, routing_tag@, payload_length));
    }
    Ok(ReceivedHeader { bytes: raw, header: EnvelopeHeader { message_type, routing_tag, payload_length } })
}

/// Parses one complete frame from the front of `bytes`, returning the header
/// and exactly its payload. Bytes beyond the frame are left alone.
pub fn parse_frame(bytes: &[u8]) -> (r: Result<(ReceivedHeader, &[u8]), EnvelopeError>)
    ensures
        match parse_frame_spec(bytes@) {
            Ok((m, p)) => r matches Ok((h, q)) && h@ == (bytes@.subrange(0, 24), m) && q@ == p,
            Err(e) => r matches Err(f) && f == e,
        },
{
    let header = parse_header(bytes)?;
    let payload_length = header.payload_length() as usize;
    let frame_len = ENVELOPE_HEADER_LEN + payload_length;
    if bytes.len() < frame_len {
        return Err(EnvelopeError::TruncatedFrame { needed: frame_len, available: bytes.len() });
    }
    let payload = vstd::slice::slice_subrange(bytes, ENVELOPE_HEADER_LEN, frame_len);
    Ok((header, payload))
}

/// Builds a complete frame: the canonical header followed by `payload`. Fails,
/// rather than emitting something a peer would reject, if the payload does
/// not suit the message type.
pub fn encode(message_type: MessageType, routing_tag: [u8; 16], payload: &[u8]) -> (r: Result<
    Vec<u8>,
    EnvelopeError,
>)
    ensures
        match encode_spec(message_type, routing_tag@, payload@) {
            Ok(f) => r matches Ok(v) && v@ == f,
            Err(e) => r == Err::<Vec<u8>, EnvelopeError>(e),
        },
{
    if payload.len() > MAX_PAYLOAD_LEN {
        let declared: u32 = if payload.len() <= 0xffff_ffffusize {
            payload.len() as u32
        } else {
            0xffff_ffffu32
        };
        return Err(EnvelopeError::PayloadTooLarge { declared });
    }
    let header = EnvelopeHeader::new(message_type, routing_tag, payload.len() as u32)?;
    let mut out: Vec<u8> = Vec::with_capacity(ENVELOPE_HEADER_LEN + payload.len());
    let hb = header.to_bytes();
    append_bytes(&mut out, hb.as_slice());
    append_bytes(&mut out, payload);
    assert(out@ =~= header_bytes_spec(message_type, routing_tag@, payload@.len() as u32)
        + payload@);
    Ok(out)
}

// ── Laws ──────────────────────────────────────────────────────────────────────

/// A header that obeys the wire rules parses back from its canonical bytes,
/// whatever follows them.
pub proof fn lemma_header_round_trip(t: MessageType, tag: Seq<u8>, len: u32, rest: Seq<u8>)
    requires
        tag.len() == 16,
        header_error(t, tag, len) is None,
    ensures
        parse_header_spec(header_bytes_spec(t, tag, len) + rest) == Ok::<
            HeaderModel,
            EnvelopeError,
        >((t, tag, len)),
{
    let b = header_bytes_spec(t, tag, len) + rest;
    lemma_be_bytes_len(len as nat, 4);
    assert(b.subrange(4, 20) =~= tag);
    assert(b.subrange(20, 24) =~= be_bytes(len as nat, 4));
    reveal_with_fuel(pow256, 5);
    assert(pow256(4) == 4294967296);
    lemma_be_value_of_bytes(len as nat, 4);
}

/// A parsed header is exactly the canonical serialization of what it decodes
/// to, so re-serializing it reproduces the received bytes.
pub proof fn lemma_parsed_header_is_canonical(b: Seq<u8>)
    requires
        parse_header_spec(b) is Ok,
    ensures
        ({
            let h = parse_header_spec(b)->Ok_0;
            &&& header_bytes_spec(h.0, h.1, h.2) == b.subrange(0, 24)
            &&& h.1.len() == 16
            &&& h.2 <= MAX_PAYLOAD_LEN
            &&& header_error(h.0, h.1, h.2) is None
        }),
{
    let h = parse_header_spec(b)->Ok_0;
    lemma_bytes_of_be_value(b.subrange(20, 24));
    reveal_with_fuel(pow256, 5);
    assert(pow256(4) == 4294967296);
    assert(header_bytes_spec(h.0, h.1, h.2) =~= b.subrange(0, 24));
}

/// What `encode` builds, `parse_frame` takes apart again: the same header and
/// exactly the payload, whatever bytes follow the frame.
pub proof fn lemma_frame_round_trip(t: MessageType, tag: Seq<u8>, payload: Seq<u8>, rest: Seq<u8>)
    requires
        tag.len() == 16,
        encode_spec(t, tag, payload) is Ok,
    ensures
        parse_frame_spec(encode_spec(t, tag, payload)->Ok_0 + rest) == Ok::<
            (HeaderModel, Seq<u8>),
            EnvelopeError,
        >(((t, tag, payload.len() as u32), payload)),
{
    let len = payload.len() as u32;
    let f = encode_spec(t, tag, payload)->Ok_0;
    let h = header_bytes_spec(t, tag, len);
    lemma_be_bytes_len(len as nat, 4);
    assert(f + rest =~= h + (payload + rest));
    lemma_header_round_trip(t, tag, len, payload + rest);
    assert((f + rest).subrange(24, 24 + len as int) =~= payload);
}

/// A header declaring more than [`MAX_PAYLOAD_LEN`] never parses, so a reader
/// never sizes a buffer from an unchecked length.
pub proof fn lemma_parsed_length_is_bounded(b: Seq<u8>)
    requires
        parse_header_spec(b) is Ok,
    ensures
        parse_header_spec(b)->Ok_0.2 <= MAX_PAYLOAD_LEN,
{
}

// ── Messages ──────────────────────────────────────────────────────────────────

/// The name of a message type, as `Debug` writes it.
pub open spec fn message_type_label(t: MessageType) -> Seq<char> {
    match t {
        MessageType::PrekeyRequest => "PrekeyRequest"@,
        MessageType::PrekeyResponse => "PrekeyResponse"@,
        MessageType::SessionInit => "SessionInit"@,
        MessageType::RatchetMessage => "RatchetMessage"@,
    }
}

/// The message of an error: what was wrong, with the offending value.
pub open spec fn error_message(e: EnvelopeError) -> Seq<char> {
    match e {
        EnvelopeError::TruncatedFrame { needed, available } => "truncated frame: needed "@
            + decimal_spec(needed as nat) + " bytes, have "@ + decimal_spec(available as nat),
        EnvelopeError::UnsupportedEnvelopeVersion { version } => "unsupported envelope version 0x"@
            + hex_width_spec(version as nat, 2),
        EnvelopeError::UnknownMessageType { message_type } => "unknown message type 0x"@
            + hex_width_spec(message_type as nat, 2),
        EnvelopeError::ReservedNotZero { reserved } => "reserved field must be zero, got 0x"@
            + hex_width_spec(reserved as nat, 4),
        EnvelopeError::RoutingTagMustBeZero { message_type } => message_type_label(message_type)
            + " must carry an all-zero routing tag"@,
        EnvelopeError::RoutingTagMustBeSet { message_type } => message_type_label(message_type)
            + " must carry a non-zero routing tag"@,
        EnvelopeError::PayloadTooLarge { declared } => "payload of "@ + decimal_spec(
            declared as nat,
        ) + " bytes exceeds the 65536-byte limit"@,
        EnvelopeError::WrongPayloadLength { message_type, declared, min, max } => message_type_label(
            message_type,
        ) + " requires a payload of "@ + decimal_spec(min as nat) + "..="@ + decimal_spec(
            max as nat,
        ) + " bytes, got "@ + decimal_spec(declared as nat),
    }
}

fn push_type_name(s: &mut String, t: MessageType)
    ensures
        final(s)@ == old(s)@ + message_type_label(t),
{
    match t {
        MessageType::PrekeyRequest => push_str(s, "PrekeyRequest"),
        MessageType::PrekeyResponse => push_str(s, "PrekeyResponse"),
        MessageType::SessionInit => push_str(s, "SessionInit"),
        MessageType::RatchetMessage => push_str(s, "RatchetMessage"),
    }
}

impl EnvelopeError {
    /// What was wrong, naming the offending value.
    pub fn to_string(&self) -> (s: String)
        ensures
            s@ == error_message(*self),
    {
        let mut s = String::new();
        match *self {
            EnvelopeError::TruncatedFrame { needed, available } => {
                push_str(&mut s, "truncated frame: needed ");
                push_decimal(&mut s, needed as u64);
                push_str(&mut s, " bytes, have ");
                push_decimal(&mut s, available as u64);
            },
            EnvelopeError::UnsupportedEnvelopeVersion { version } => {
                push_str(&mut s, "unsupported envelope version 0x");
                push_hex_width(&mut s, version as u64, 2);
            },
            EnvelopeError::UnknownMessageType { message_type } => {
                push_str(&mut s, "unknown message type 0x");
                push_hex_width(&mut s, message_type as u64, 2);
            },
            EnvelopeError::ReservedNotZero { reserved } => {
                push_str(&mut s, "reserved field must be zero, got 0x");
                push_hex_width(&mut s, reserved as u64, 4);
            },
            EnvelopeError::RoutingTagMustBeZero { message_type } => {
                push_type_name(&mut s, message_type);
                push_str(&mut s, " must carry an all-zero routing tag");
            },
            EnvelopeError::RoutingTagMustBeSet { message_type } => {
                push_type_name(&mut s, message_type);
                push_str(&mut s, " must carry a non-zero routing tag");
            },
            EnvelopeError::PayloadTooLarge { declared } => {
                push_str(&mut s, "payload of ");
                push_decimal(&mut s, declared as u64);
                push_str(&mut s, " bytes exceeds the 65536-byte limit");
            },
            EnvelopeError::WrongPayloadLength { message_type, declared, min, max } => {
                push_type_name(&mut s, message_type);
                push_str(&mut s, " requires a payload of ");
                push_decimal(&mut s, min as u64);
                push_str(&mut s, "..=");
                push_decimal(&mut s, max as u64);
                push_str(&mut s, " bytes, got ");
                push_decimal(&mut s, declared as u64);
            },
        }
        s
    }
}

} // verus!
