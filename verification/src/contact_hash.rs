//! Contact hashing for private set intersection: `SHA-256(utf8(phone))[0..8]`
//! read as a little-endian `u64`. It must match the TypeScript client bit for
//! bit. It is not preimage-safe against enumeration; privacy rests on the MPC
//! computation, not on the hash.

use vstd::prelude::*;
use vstd::string::StringSliceAdditionalSpecFns;

use crate::buf::array8_at;
use crate::bytes::{le8_value, u64_from_le};
use crate::crypto::{sha256, sha256_spec};

verus! {

/// The contact hash of a phone number's UTF-8 bytes.
pub open spec fn contact_hash_spec(phone_utf8: Seq<u8>) -> nat {
    le8_value(sha256_spec(phone_utf8).subrange(0, 8))
}

/// Hashes a phone number to a `u64` for PSI matching.
pub fn hash_contact(phone: &str) -> (h: u64)
    ensures
        h as nat == contact_hash_spec(phone.spec_bytes()),
{
    let digest = sha256(phone.as_bytes());
    let bytes = array8_at(digest.as_slice(), 0);
    u64_from_le(&bytes)
}

} // verus!
