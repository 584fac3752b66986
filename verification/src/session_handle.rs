//! Local messaging session handles: the `u64` a device keys its own session
//! table by, derived from the peer's X25519 identity public key as
//! `SHA-256("arcium/local-session-handle/v1" || pk)[0..8]` read
//! little-endian. Never transmitted, not a security boundary, not
//! collision-free: callers keep the full key beside the handle.

use vstd::prelude::*;

use crate::buf::{append_bytes, array8_at};
use crate::bytes::{le8_value, u64_from_le};
use crate::crypto::{sha256, sha256_spec};
use crate::labels::{session_handle_domain, session_handle_domain_spec};

verus! {

/// The handle of the session with the peer whose identity key is `pk`.
pub open spec fn session_handle_spec(pk: Seq<u8>) -> nat {
    le8_value(sha256_spec(session_handle_domain_spec() + pk).subrange(0, 8))
}

/// Derives this device's local lookup handle for the session with the peer
/// whose X25519 identity public key is `peer_identity_pk`.
pub fn local_session_handle(peer_identity_pk: &[u8; 32]) -> (h: u64)
    ensures
        h as nat == session_handle_spec(peer_identity_pk@),
{
    let domain = session_handle_domain();
    let mut input: Vec<u8> = Vec::with_capacity(62);
    append_bytes(&mut input, domain.as_slice());
    append_bytes(&mut input, peer_identity_pk.as_slice());
    let digest = sha256(input.as_slice());
    let bytes = array8_at(digest.as_slice(), 0);
    u64_from_le(&bytes)
}

} // verus!
