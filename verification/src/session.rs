//! The session table: each contact's Double Ratchet, the X3DH associated data
//! it is bound to for its whole life, and the peer it belongs to.

use vstd::prelude::*;

use std::collections::HashMap;

use crate::buf::bytes_eq;
use crate::ratchet::DoubleRatchet;
use crate::text::{decimal_spec, push_decimal, push_str};

verus! {

broadcast use vstd::std_specs::hash::group_hash_axioms;

/// A device's local name for a contact's session.
pub type ContactId = u64;

/// A session: the ratchet, the associated data X3DH produced (encryption and
/// decryption both need it), and the peer's 32-byte X25519 identity public
/// key, kept beside the ratchet so that ownership cannot drift from the
/// session it describes.
pub struct Session {
    pub ratchet: DoubleRatchet,
    pub ad: Vec<u8>,
    pub peer_identity_pk: [u8; 32],
}

/// Why a session could not be created. Both mean that the id is occupied;
/// they differ in whether the occupant is the same peer.
#[derive(Debug, Clone, Copy, PartialEq, Eq, Structural)]
pub enum SessionError {
    /// The id already holds a session with this same peer; replacing it would
    /// discard a live ratchet and desynchronise both devices.
    AlreadyEstablished { contact_id: ContactId },
    /// The id already holds a session with a different peer: ids are a 64-bit
    /// truncation, so two peers can land on one.
    HandleCollision { contact_id: ContactId },
}

impl SessionError {
    /// The error message.
    pub fn to_string(&self) -> (s: String)
        ensures
            s@ == match *self {
                SessionError::AlreadyEstablished { contact_id } => "session "@ + decimal_spec(
                    contact_id as nat,
                ) + " already exists for this peer; refusing to replace a live ratchet"@,
                SessionError::HandleCollision { contact_id } => "session id "@ + decimal_spec(
                    contact_id as nat,
                ) + " is already held by a different peer; refusing to rebind it"@,
            },
    {
        let mut s = String::new();
        match *self {
            SessionError::AlreadyEstablished { contact_id } => {
                push_str(&mut s, "session ");
                push_decimal(&mut s, contact_id);
                push_str(&mut s, " already exists for this peer; refusing to replace a live ratchet");
            },
            SessionError::HandleCollision { contact_id } => {
                push_str(&mut s, "session id ");
                push_decimal(&mut s, contact_id);
                push_str(&mut s, " is already held by a different peer; refusing to rebind it");
            },
        }
        s
    }
}

/// What [`SessionManager::try_new_session`] does to the table `m`: the error
/// it returns, or `None` when the session goes in.
pub open spec fn new_session_error(m: Map<ContactId, Session>, id: ContactId, peer: [u8; 32]) -> Option<
    SessionError,
> {
    if !m.contains_key(id) {
        None
    } else if m[id].peer_identity_pk@ == peer@ {
        Some(SessionError::AlreadyEstablished { contact_id: id })
    } else {
        Some(SessionError::HandleCollision { contact_id: id })
    }
}

pub struct SessionManager {
    sessions: HashMap<ContactId, Session>,
}

impl View for SessionManager {
    type V = Map<ContactId, Session>;

    closed spec fn view(&self) -> Map<ContactId, Session> {
        self.sessions@
    }
}

/// The entry for `k`, to update in place. Calls `HashMap::get_mut`: it is
/// there exactly when the key is, holds the stored session, and whatever it
/// holds when released is what the map then holds at `k`; the other keys keep
/// their sessions.
#[verifier::external_body]
fn session_entry_mut(m: &mut HashMap<ContactId, Session>, k: ContactId) -> (r: Option<&mut Session>)
    ensures
        r is Some <==> old(m)@.contains_key(k),
        r is Some ==> *r.unwrap() == old(m)@[k] && final(m)@ == old(m)@.insert(k, *final(r.unwrap())),
        r is None ==> final(m)@ == old(m)@,
{
    m.get_mut(&k)
}

impl SessionManager {
    pub fn new() -> (m: Self)
        ensures
            m@ == Map::<ContactId, Session>::empty(),
    {
        SessionManager { sessions: HashMap::new() }
    }

    /// Creates a session at `contact_id`, refusing to disturb anything
    /// already there; on either error the table is left exactly as it was.
    pub fn try_new_session(&mut self, contact_id: ContactId, state: Session) -> (r: Result<
        (),
        SessionError,
    >)
        ensures
            r matches Err(e) ==> new_session_error(old(self)@, contact_id, state.peer_identity_pk)
                == Some(e) && final(self)@ == old(self)@,
            r is Ok ==> new_session_error(old(self)@, contact_id, state.peer_identity_pk) is None
                && final(self)@ == old(self)@.insert(contact_id, state),
            r is Ok <==> !old(self)@.contains_key(contact_id),
    {
        match self.sessions.get(&contact_id) {
            Some(existing) => {
                if bytes_eq(existing.peer_identity_pk.as_slice(), state.peer_identity_pk.as_slice()) {
                    Err(SessionError::AlreadyEstablished { contact_id })
                } else {
                    Err(SessionError::HandleCollision { contact_id })
                }
            },
            None => {
                self.sessions.insert(contact_id, state);
                Ok(())
            },
        }
    }

    /// The session at `contact_id`, to use and update in place.
    pub fn get_session(&mut self, contact_id: ContactId) -> (r: Option<&mut Session>)
        ensures
            r is Some <==> old(self)@.contains_key(contact_id),
            r is Some ==> *r.unwrap() == old(self)@[contact_id] && final(self)@ == old(
                self,
            )@.insert(contact_id, *final(r.unwrap())),
            r is None ==> final(self)@ == old(self)@,
    {
        session_entry_mut(&mut self.sessions, contact_id)
    }

    /// Removes the session at `contact_id`, if any.
    pub fn remove_session(&mut self, contact_id: ContactId)
        ensures
            final(self)@ == old(self)@.remove(contact_id),
    {
        self.sessions.remove(&contact_id);
    }
}

impl Default for SessionManager {
    fn default() -> (m: Self)
        ensures
            m@ == Map::<ContactId, Session>::empty(),
    {
        Self::new()
    }
}

/// A refused insertion leaves nothing behind: once the occupant of an id is
/// removed, a new session for any peer can take the id.
pub proof fn lemma_removed_id_is_free(m: Map<ContactId, Session>, id: ContactId, peer: [u8; 32])
    ensures
        new_session_error(m.remove(id), id, peer) is None,
{
}

} // verus!
