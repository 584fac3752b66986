//! Private set intersection for contact discovery: the matching rule the MPC
//! circuit evaluates, the per-user query bookkeeping, and the argument layout
//! a query hands to the circuit.
//!
//! Contacts are `u64` hashes (the first eight bytes of SHA-256 of the phone
//! number, see [`crate::contact_hash`]). In deployment the comparison runs on
//! secret shares inside the MPC network, so that no node sees a hash; the
//! network, the on-chain program around it and their encryption are outside
//! this library.

use vstd::prelude::*;

use crate::buf::all_zero;

verus! {

/// Contacts per query batch; the circuit needs a fixed size.
pub const BATCH_SIZE: usize = 10;

/// The client's contact hashes.
pub struct ClientContacts {
    pub hashes: [u64; 10],
}

/// The server's registered users' hashes.
pub struct ServerContacts {
    pub hashes: [u64; 10],
}

/// `matches[i]` is whether `client.hashes[i]` is in the server set.
pub struct MatchResult {
    pub matches: [bool; 10],
}

/// Whether `h` is one of the server's hashes.
pub open spec fn in_server_set(server: Seq<u64>, h: u64) -> bool {
    exists|j: int| 0 <= j < server.len() && server[j] == h
}

/// Compares every client hash with every server hash. Reveals, per client
/// position, only whether it matched.
pub fn psi_intersect(client: &ClientContacts, server: &ServerContacts) -> (r: MatchResult)
    ensures
        forall|i: int| 0 <= i < 10 ==> r.matches@[i] == in_server_set(server.hashes@, client.hashes@[i]),
{
    let mut matches = [false; 10];
    let mut i: usize = 0;
    while i < BATCH_SIZE
        invariant
            i <= 10,
            matches@.len() == 10,
            forall|k: int| 0 <= k < i ==> matches@[k] == in_server_set(server.hashes@, client.hashes@[k]),
        decreases 10 - i,
    {
        let mut found = false;
        let mut j: usize = 0;
        while j < BATCH_SIZE
            invariant
                i < 10,
                j <= 10,
                found == exists|k: int| 0 <= k < j && server.hashes@[k] == client.hashes@[i as int],
            decreases 10 - j,
        {
            if client.hashes[i] == server.hashes[j] {
                found = true;
            }
            j = j + 1;
        }
        matches[i] = found;
        i = i + 1;
    }
    MatchResult { matches }
}

/// Why a PSI instruction was refused.
#[derive(Debug, Clone, Copy, PartialEq, Eq, Structural)]
pub enum PsiError {
    /// The query nonce is not above every earlier one.
    NonceReused,
    /// An encryption key is all zeros: the client or server data was never
    /// initialised.
    UninitializedEncryptionKey,
}

impl PsiError {
    /// The error message.
    pub fn to_string(&self) -> (s: String)
        ensures
            *self == PsiError::NonceReused ==> s@ == "nonce already used"@,
            *self == PsiError::UninitializedEncryptionKey ==> s@
                == "encryption key is all-zeros (uninitialized client or server data)"@,
    {
        match self {
            PsiError::NonceReused => "nonce already used".to_owned(),
            PsiError::UninitializedEncryptionKey => "encryption key is all-zeros (uninitialized client or server data)".to_owned(),
        }
    }
}

/// A user's query bookkeeping.
pub struct UserState {
    pub owner: [u8; 32],
    pub queries_made: u64,
    pub last_nonce: u64,
    pub bump: u8,
}

/// Serialised size of [`UserState`].
pub const USER_STATE_SIZE: usize = 49;

/// A new user's state: owned by `payer`, no query made yet.
pub fn init_user(payer: [u8; 32], bump: u8) -> (s: UserState)
    ensures
        s.owner == payer,
        s.queries_made == 0,
        s.last_nonce == 0,
        s.bump == bump,
{
    UserState { owner: payer, queries_made: 0, last_nonce: 0, bump }
}

/// Records a query with `nonce`. Refused, with nothing changed, unless the
/// nonce is above every earlier one; the query count saturates.
pub fn submit_query(state: &mut UserState, nonce: u64) -> (r: Result<(), PsiError>)
    ensures
        r is Err <==> nonce <= old(state).last_nonce,
        r matches Err(e) ==> e == PsiError::NonceReused && *final(state) == *old(state),
        r is Ok ==> final(state).last_nonce == nonce && final(state).queries_made == if old(
            state,
        ).queries_made == u64::MAX {
            u64::MAX
        } else {
            (old(state).queries_made + 1) as u64
        } && final(state).owner == old(state).owner && final(state).bump == old(state).bump,
{
    if nonce <= state.last_nonce {
        return Err(PsiError::NonceReused);
    }
    state.last_nonce = nonce;
    state.queries_made = state.queries_made.saturating_add(1);
    Ok(())
}

/// A batch encrypted for the circuit: the sender's X25519 key, the cipher
/// nonce and one 32-byte ciphertext per contact.
pub struct SharedEncryptedStruct {
    pub encryption_key: [u8; 32],
    pub nonce: u128,
    pub ciphertexts: [[u8; 32]; 10],
}

/// One argument of the circuit call.
#[derive(Debug, Clone, Copy, PartialEq, Eq)]
pub enum CircuitArg {
    X25519Pubkey([u8; 32]),
    PlaintextU128(u128),
    EncryptedU64([u8; 32]),
}

/// The arguments of one encrypted batch, in the order the circuit's
/// `Enc<Shared, _>` parameter takes them: key, nonce, ciphertexts.
pub open spec fn batch_args(d: SharedEncryptedStruct) -> Seq<CircuitArg> {
    seq![CircuitArg::X25519Pubkey(d.encryption_key), CircuitArg::PlaintextU128(d.nonce)]
        + Seq::new(10, |i: int| CircuitArg::EncryptedU64(d.ciphertexts@[i]))
}

fn push_batch_args(args: &mut Vec<CircuitArg>, d: &SharedEncryptedStruct)
    ensures
        final(args)@ == old(args)@ + batch_args(*d),
{
    let ghost start = args@;
    args.push(CircuitArg::X25519Pubkey(d.encryption_key));
    args.push(CircuitArg::PlaintextU128(d.nonce));
    let mut i: usize = 0;
    while i < BATCH_SIZE
        invariant
            i <= 10,
            args@ == start + seq![CircuitArg::X25519Pubkey(d.encryption_key), CircuitArg::PlaintextU128(d.nonce)]
                + Seq::new(i as nat, |k: int| CircuitArg::EncryptedU64(d.ciphertexts@[k])),
        decreases 10 - i,
    {
        args.push(CircuitArg::EncryptedU64(d.ciphertexts[i]));
        i = i + 1;
        assert(Seq::new(i as nat, |k: int| CircuitArg::EncryptedU64(d.ciphertexts@[k]))
            =~= Seq::new((i - 1) as nat, |k: int| CircuitArg::EncryptedU64(d.ciphertexts@[k])).push(
            CircuitArg::EncryptedU64(d.ciphertexts@[i - 1]),
        ));
    }
}

/// Checks a PSI query and lays out its circuit arguments: the client batch,
/// then the server batch, matching
/// `psi_intersect(client_data, server_data)`. A batch whose encryption key
/// is all zeros is refused.
pub fn submit_psi_query(client_data: &SharedEncryptedStruct, server_data: &SharedEncryptedStruct) -> (r:
    Result<Vec<CircuitArg>, PsiError>)
    ensures
        r is Err <==> (client_data.encryption_key@ == Seq::new(32, |i: int| 0u8)
            || server_data.encryption_key@ == Seq::new(32, |i: int| 0u8)),
        r matches Err(e) ==> e == PsiError::UninitializedEncryptionKey,
        r matches Ok(args) ==> args@ == batch_args(*client_data) + batch_args(*server_data),
{
    if all_zero(client_data.encryption_key.as_slice()) {
        assert(client_data.encryption_key@ =~= Seq::new(32, |i: int| 0u8));
        return Err(PsiError::UninitializedEncryptionKey);
    }
    if all_zero(server_data.encryption_key.as_slice()) {
        assert(server_data.encryption_key@ =~= Seq::new(32, |i: int| 0u8));
        return Err(PsiError::UninitializedEncryptionKey);
    }
    proof {
        if client_data.encryption_key@ == Seq::new(32, |i: int| 0u8) {
            assert(forall|j: int| 0 <= j < 32 ==> client_data.encryption_key@[j] == 0);
        }
        if server_data.encryption_key@ == Seq::new(32, |i: int| 0u8) {
            assert(forall|j: int| 0 <= j < 32 ==> server_data.encryption_key@[j] == 0);
        }
    }
    let mut args: Vec<CircuitArg> = Vec::new();
    push_batch_args(&mut args, client_data);
    push_batch_args(&mut args, server_data);
    assert(args@ =~= batch_args(*client_data) + batch_args(*server_data));
    Ok(args)
}

/// An off-chain circuit reference: where the compiled circuit is, and the
/// SHA-256 of its content, checked before execution.
pub struct OffChainCircuitSource {
    pub url: String,
    pub hash: [u8; 32],
    pub version: u32,
}

/// A client's PSI query.
pub struct PsiQuery {
    /// Ephemeral client X25519 public key for the cipher's key agreement.
    pub client_pubkey: [u8; 32],
    /// The encrypted contact hashes.
    pub encrypted_hashes: Vec<u8>,
    pub nonce: [u8; 16],
    /// Hash of the circuit used; must match the registered source's hash.
    pub circuit_hash: [u8; 32],
}

/// The result of a PSI computation.
pub struct PsiResult {
    pub query_id: [u8; 32],
    /// The encrypted boolean match vector.
    pub encrypted_matches: Vec<u8>,
    /// The MPC nodes' aggregate signature over `query_id || encrypted_matches`.
    pub mpc_signature: [u8; 64],
}

} // verus!
