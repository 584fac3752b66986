use arcium_core::rescue::{psi_pack_contact, RescueCipher};
use arcium_core::spk_id::spk_id_domain_bytes;

fn test_key() -> [u8; 32] {
    [42u8; 32]
}

fn test_nonce() -> [u8; 16] {
    [1u8; 16]
}

#[test]
fn psi_pack_produces_consistent_output() {
    let cipher = RescueCipher::from_shared_secret(&test_key());
    let hash = [7u8; 32];
    let nonce = test_nonce();
    assert_eq!(psi_pack_contact(&hash, &cipher, &nonce), psi_pack_contact(&hash, &cipher, &nonce),);
}

#[test]
fn domain_is_exactly_21_bytes() {
    let domain = spk_id_domain_bytes();
    assert_eq!(domain.len(), 21, "frozen spec fixes the domain at 21 bytes");
    assert_eq!(&domain, b"arcium/x3dh-spk-id/v1");
}
