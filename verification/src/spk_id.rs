//! Signed-prekey identifiers for `ARCIUM_X3DH_FORMAT_V1`:
//! `SHA-256("arcium/x3dh-spk-id/v1" || signed_prekey_pk)[0..8]`, kept as the
//! first eight digest bytes in digest order, which is exactly what goes on
//! the wire. Not a secret, not an authentication boundary, not
//! collision-free.

use vstd::prelude::*;

use crate::buf::{append_bytes, array8_at};
use crate::crypto::{sha256, sha256_spec};
use crate::labels::{spk_id_domain, spk_id_domain_spec};

verus! {

/// Width of a signed-prekey identifier, in bytes.
pub const SPK_ID_LEN: usize = 8;

/// The domain separator, exactly 21 bytes.
pub fn spk_id_domain_bytes() -> (d: [u8; 21])
    ensures
        d@ == spk_id_domain_spec(),
{
    spk_id_domain()
}

/// The identifier of the signed prekey `pk`.
pub open spec fn spk_id_spec(pk: Seq<u8>) -> Seq<u8> {
    sha256_spec(spk_id_domain_spec() + pk).subrange(0, 8)
}

/// Derives the identifier of the signed prekey whose X25519 public key is
/// `signed_prekey_pk`.
pub fn spk_id(signed_prekey_pk: &[u8; 32]) -> (id: [u8; 8])
    ensures
        id@ == spk_id_spec(signed_prekey_pk@),
{
    let domain = spk_id_domain();
    let mut input: Vec<u8> = Vec::with_capacity(53);
    append_bytes(&mut input, domain.as_slice());
    append_bytes(&mut input, signed_prekey_pk.as_slice());
    let digest = sha256(input.as_slice());
    array8_at(digest.as_slice(), 0)
}

} // verus!
