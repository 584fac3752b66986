# arcium_core

The verified core of an end-to-end encrypted messenger, written in Verus.

- `src/` is the library, every function of it checked by Verus against its
  contract: the transport envelope (`envelope`), X3DH (`x3dh`, `spk_id`), the
  hybrid X25519 + ML-KEM-768 KEM (`hybrid`), the Double Ratchet and its
  checkpoint format (`ratchet`), the session table and session checkpoints
  (`session`, `session_checkpoint`), the encrypted key-value store over SQLite
  (`storage`), durable sessions that only advance through conditionally
  committed checkpoints (`durable`), durable messaging with outbox, inbox and
  exactly-once acceptance (`messaging`), and the PSI contact-discovery rules
  (`psi`, `contact_hash`, `rescue`).
- Calls into outside crates (hashing, AEAD, X25519, Ed25519, ML-KEM, SQLite,
  `indexmap`) go through small trusted wrappers, each documented with what its
  contract claims of the outside function; most are in `src/crypto.rs`,
  `src/storage.rs` and `src/ratchet/skipped.rs`.
- `tests/` runs the library with the real outside crates linked.
- `app/` holds what does I/O or runs elsewhere: the Tor transport, the
  on-chain PSI program and the MPC circuit it queues.
