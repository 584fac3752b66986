use arcium_core::durable::{check_precondition, Conflict, Current, Expect};
use arcium_core::session_checkpoint::{session_storage_key, SessionBinding, SessionRole};

fn binding(our: [u8; 32], peer: [u8; 32]) -> SessionBinding {
    SessionBinding { our_identity_pk: our, peer_identity_pk: peer }
}

#[test]
fn storage_key_is_per_peer() {
    let k = session_storage_key(&[0xab; 32]);
    assert_eq!(k.len(), 11 + 64);
    assert!(k.starts_with("session:v1/abab"));
    assert_ne!(k, session_storage_key(&[0xac; 32]));
}

#[test]
fn an_unreadable_record_satisfies_no_precondition() {
    let b = binding([1; 32], [2; 32]);
    assert!(matches!(
        check_precondition(Current::Unreadable, &Expect::Absent),
        Err(Conflict::RecordExists)
    ));
    assert!(matches!(
        check_precondition(
            Current::Unreadable,
            &Expect::Predecessor { generation: 0, role: SessionRole::Initiator, binding: &b }
        ),
        Err(Conflict::StoredRecordUnreadable)
    ));
}
