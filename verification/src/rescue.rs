//! The cipher that encrypts contact hashes for PSI submission. This build
//! uses ChaCha20-Poly1305 keyed by a shared secret, with the first 12 bytes of
//! the 16-byte nonce, behind the interface the Rescue cipher will have.

use vstd::prelude::*;

use crate::buf::array32_at;
use crate::crypto::{aead_max_plaintext, chacha_open, chacha_open_spec, chacha_seal, chacha_seal_spec};

verus! {

/// Decryption failed.
#[derive(Debug, Clone, Copy, PartialEq, Eq, Structural)]
pub struct RescueError;

impl RescueError {
    /// The error message.
    pub fn to_string(&self) -> (s: String)
        ensures
            s@ == "rescue decryption failed"@,
    {
        "rescue decryption failed".to_owned()
    }
}

pub struct RescueCipher {
    key: [u8; 32],
}

/// The 12-byte nonce taken from the 16-byte one.
pub open spec fn nonce12(nonce: Seq<u8>) -> Seq<u8> {
    nonce.subrange(0, 12)
}

fn short_nonce(nonce: &[u8; 16]) -> (n: [u8; 12])
    ensures
        n@ == nonce12(nonce@),
{
    let n = [
        nonce[0], nonce[1], nonce[2], nonce[3], nonce[4], nonce[5], nonce[6], nonce[7], nonce[8],
        nonce[9], nonce[10], nonce[11],
    ];
    assert(n@ =~= nonce12(nonce@));
    n
}

impl View for RescueCipher {
    type V = Seq<u8>;

    closed spec fn view(&self) -> Seq<u8> {
        self.key@
    }
}

impl RescueCipher {
    pub fn from_shared_secret(secret: &[u8; 32]) -> (c: Self)
        ensures
            c@ == secret@,
    {
        RescueCipher { key: *secret }
    }

    pub fn encrypt(&self, data: &[u8], nonce: &[u8; 16]) -> (ct: Vec<u8>)
        requires
            data@.len() <= aead_max_plaintext(),
        ensures
            ct@ == chacha_seal_spec(self@, nonce12(nonce@), data@),
            ct@.len() == data@.len() + 16,
    {
        let n = short_nonce(nonce);
        chacha_seal(&self.key, &n, data)
    }

    /// Decrypts what [`encrypt`](Self::encrypt) produced under the same key
    /// and nonce; anything that does not authenticate is an error.
    pub fn decrypt(&self, ciphertext: &[u8], nonce: &[u8; 16]) -> (r: Result<Vec<u8>, RescueError>)
        ensures
            r is Ok <==> chacha_open_spec(self@, nonce12(nonce@), ciphertext@) is Some,
            r matches Ok(p) ==> chacha_open_spec(self@, nonce12(nonce@), ciphertext@) == Some(p@),
            forall|m: Seq<u8>|
                m.len() <= aead_max_plaintext() && ciphertext@ == chacha_seal_spec(
                    self@,
                    nonce12(nonce@),
                    m,
                ) ==> (r matches Ok(p)
                    && p@ == m),
    {
        let n = short_nonce(nonce);
        match chacha_open(&self.key, &n, ciphertext) {
            Some(p) => Ok(p),
            None => Err(RescueError),
        }
    }
}

/// Encrypts a SHA-256 contact hash for PSI submission.
pub fn psi_pack_contact(phone_hash: &[u8; 32], cipher: &RescueCipher, nonce: &[u8; 16]) -> (ct: Vec<u8>)
    ensures
        ct@ == chacha_seal_spec(cipher@, nonce12(nonce@), phone_hash@),
{
    cipher.encrypt(phone_hash.as_slice(), nonce)
}

} // verus!
