//! Verified core of an end-to-end encrypted messenger: the transport
//! envelope, the Double Ratchet and its checkpoints, X3DH, and the
//! durable session and messaging records built on them.

pub mod bytes;
pub mod buf;
pub mod envelope;
pub mod crypto;
pub mod labels;
pub mod ratchet;
pub mod x3dh;
pub mod spk_id;
pub mod session_handle;
pub mod contact_hash;
pub mod rescue;
pub mod hybrid;
pub mod session;
pub mod session_checkpoint;
pub mod text;
pub mod storage;
pub mod durable;
pub mod transport;
pub mod psi;
pub mod messaging;
