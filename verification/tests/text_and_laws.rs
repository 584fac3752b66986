use arcium_core::envelope::{encode, parse_frame, EnvelopeError, MessageType};
use arcium_core::messaging::records::{handle_key, hex, outbox_key, sendid_key};
use arcium_core::ratchet::checkpoint::CheckpointError;
use arcium_core::hybrid::HybridError;
use arcium_core::ratchet::RatchetError;
use arcium_core::rescue::RescueError;
use arcium_core::storage::StorageError;
use arcium_core::x3dh::X3dhError;
use arcium_core::session::SessionError;
use arcium_core::session_checkpoint::{session_storage_key, SessionCheckpointError};

#[test]
fn hex_and_key_builders() {
    assert_eq!(hex(&[0x00, 0xab, 0x10]), "00ab10");
    assert_eq!(handle_key(0xB0B), "handle:v1/0000000000000b0b");
    assert_eq!(sendid_key(&[0x01; 32], b"\xff"), format!("sendid:v1/{}/ff", "01".repeat(32)));
    assert_eq!(outbox_key(&[0x02; 32], &[0x03; 32]), format!("outbox:v1/{}/{}", "02".repeat(32), "03".repeat(32)));
    assert_eq!(session_storage_key(&[0x0f; 32]), format!("session:v1/{}", "0f".repeat(32)));
}

#[test]
fn every_error_message_names_its_values() {
    assert_eq!(
        EnvelopeError::RoutingTagMustBeZero { message_type: MessageType::PrekeyRequest }.to_string(),
        "PrekeyRequest must carry an all-zero routing tag"
    );
    assert_eq!(
        EnvelopeError::RoutingTagMustBeSet { message_type: MessageType::RatchetMessage }.to_string(),
        "RatchetMessage must carry a non-zero routing tag"
    );
    assert_eq!(
        EnvelopeError::WrongPayloadLength { message_type: MessageType::SessionInit, declared: 83, min: 84, max: 84 }
            .to_string(),
        "SessionInit requires a payload of 84..=84 bytes, got 83"
    );
    assert_eq!(EnvelopeError::TruncatedFrame { needed: 0, available: 0 }.to_string(), "truncated frame: needed 0 bytes, have 0");
}

#[test]
fn a_frame_round_trips_with_trailing_bytes_left_alone() {
    let frame = encode(MessageType::RatchetMessage, [7; 16], &[1u8; 100]).unwrap();
    let mut stream = frame.clone();
    stream.extend_from_slice(b"next");
    let (h, payload) = parse_frame(&stream).unwrap();
    assert_eq!(h.payload_length(), 100);
    assert_eq!(payload, &[1u8; 100][..]);
    assert_eq!(&h.header_bytes()[..], &frame[..24]);
}

#[test]
fn checkpoint_and_session_errors_render_their_values() {
    assert_eq!(
        CheckpointError::UnknownFlags(0x08).to_string(),
        "ratchet checkpoint has unknown presence flags 0x08"
    );
    assert_eq!(
        CheckpointError::LengthMismatch { expected: 250, actual: 251 }.to_string(),
        "ratchet checkpoint length 251 does not match 250 implied by its skipped-key count"
    );
    assert_eq!(
        CheckpointError::AbsentFieldNotZero("cks").to_string(),
        "ratchet checkpoint field cks is marked absent but not zero"
    );
    let nested = SessionCheckpointError::Ratchet(CheckpointError::TooManySkippedKeys(2001));
    assert_eq!(
        nested.to_string(),
        "invalid ratchet state: ratchet checkpoint holds 2001 skipped keys; limit is 2000"
    );
    assert_eq!(nested.source(), Some(&CheckpointError::TooManySkippedKeys(2001)));
    assert_eq!(SessionCheckpointError::BadMagic.source(), None);
    assert_eq!(
        SessionCheckpointError::Truncated { actual: 3 }.to_string(),
        "session checkpoint is 3 bytes; at least 149 required"
    );
    assert_eq!(
        SessionError::HandleCollision { contact_id: 5 }.to_string(),
        "session id 5 is already held by a different peer; refusing to rebind it"
    );
    assert_eq!(
        SessionError::AlreadyEstablished { contact_id: 3 }.to_string(),
        "session 3 already exists for this peer; refusing to replace a live ratchet"
    );
    assert_eq!(RatchetError::SkipLimit.to_string(), "skip limit (1000) exceeded in receive chain");
}

#[test]
fn store_and_key_agreement_errors_render() {
    assert_eq!(StorageError::NotFound.to_string(), "key not found");
    assert_eq!(StorageError::Decryption.to_string(), "decryption failed (wrong key or corrupted data)");
    let db = StorageError::Db(rusqlite::Error::QueryReturnedNoRows);
    assert!(db.to_string().starts_with("database error: "));
    assert_eq!(HybridError.to_string(), "hybrid KEM error");
    assert_eq!(RescueError.to_string(), "rescue decryption failed");
    assert_eq!(X3dhError::BadSignature.to_string(), "signed prekey signature verification failed");
}
