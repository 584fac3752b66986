//! The fixed byte strings (domain separators and KDF labels) of the
//! protocols, each with its exact contents.

use vstd::prelude::*;

verus! {

/// HKDF info of the Double Ratchet root KDF. (`DoubleRatchet/RootKDF/v1`)
pub open spec fn root_kdf_info_spec() -> Seq<u8> {
    seq![68u8, 111u8, 117u8, 98u8, 108u8, 101u8, 82u8, 97u8, 116u8, 99u8, 104u8, 101u8, 116u8, 47u8, 82u8, 111u8, 111u8, 116u8, 75u8, 68u8, 70u8, 47u8, 118u8, 49u8]
}

/// HKDF info of the Double Ratchet root KDF. (`DoubleRatchet/RootKDF/v1`)
pub fn root_kdf_info() -> (r: [u8; 24])
    ensures
        r@ == root_kdf_info_spec(),
{
    let r = [68u8, 111u8, 117u8, 98u8, 108u8, 101u8, 82u8, 97u8, 116u8, 99u8, 104u8, 101u8, 116u8, 47u8, 82u8, 111u8, 111u8, 116u8, 75u8, 68u8, 70u8, 47u8, 118u8, 49u8];
    assert(r@ =~= root_kdf_info_spec());
    r
}

/// HKDF info of the X3DH root key. (`X3DH/v1`)
pub open spec fn x3dh_info_spec() -> Seq<u8> {
    seq![88u8, 51u8, 68u8, 72u8, 47u8, 118u8, 49u8]
}

/// HKDF info of the X3DH root key. (`X3DH/v1`)
pub fn x3dh_info() -> (r: [u8; 7])
    ensures
        r@ == x3dh_info_spec(),
{
    let r = [88u8, 51u8, 68u8, 72u8, 47u8, 118u8, 49u8];
    assert(r@ =~= x3dh_info_spec());
    r
}

/// Domain separator of the signed prekey object. (`arcium/x3dh-spk/v1`)
pub open spec fn spk_object_domain_spec() -> Seq<u8> {
    seq![97u8, 114u8, 99u8, 105u8, 117u8, 109u8, 47u8, 120u8, 51u8, 100u8, 104u8, 45u8, 115u8, 112u8, 107u8, 47u8, 118u8, 49u8]
}

/// Domain separator of the signed prekey object. (`arcium/x3dh-spk/v1`)
pub fn spk_object_domain() -> (r: [u8; 18])
    ensures
        r@ == spk_object_domain_spec(),
{
    let r = [97u8, 114u8, 99u8, 105u8, 117u8, 109u8, 47u8, 120u8, 51u8, 100u8, 104u8, 45u8, 115u8, 112u8, 107u8, 47u8, 118u8, 49u8];
    assert(r@ =~= spk_object_domain_spec());
    r
}

/// Domain separator of signed-prekey identifiers. (`arcium/x3dh-spk-id/v1`)
pub open spec fn spk_id_domain_spec() -> Seq<u8> {
    seq![97u8, 114u8, 99u8, 105u8, 117u8, 109u8, 47u8, 120u8, 51u8, 100u8, 104u8, 45u8, 115u8, 112u8, 107u8, 45u8, 105u8, 100u8, 47u8, 118u8, 49u8]
}

/// Domain separator of signed-prekey identifiers. (`arcium/x3dh-spk-id/v1`)
pub fn spk_id_domain() -> (r: [u8; 21])
    ensures
        r@ == spk_id_domain_spec(),
{
    let r = [97u8, 114u8, 99u8, 105u8, 117u8, 109u8, 47u8, 120u8, 51u8, 100u8, 104u8, 45u8, 115u8, 112u8, 107u8, 45u8, 105u8, 100u8, 47u8, 118u8, 49u8];
    assert(r@ =~= spk_id_domain_spec());
    r
}

/// Domain separator of local session handles. (`arcium/local-session-handle/v1`)
pub open spec fn session_handle_domain_spec() -> Seq<u8> {
    seq![97u8, 114u8, 99u8, 105u8, 117u8, 109u8, 47u8, 108u8, 111u8, 99u8, 97u8, 108u8, 45u8, 115u8, 101u8, 115u8, 115u8, 105u8, 111u8, 110u8, 45u8, 104u8, 97u8, 110u8, 100u8, 108u8, 101u8, 47u8, 118u8, 49u8]
}

/// Domain separator of local session handles. (`arcium/local-session-handle/v1`)
pub fn session_handle_domain() -> (r: [u8; 30])
    ensures
        r@ == session_handle_domain_spec(),
{
    let r = [97u8, 114u8, 99u8, 105u8, 117u8, 109u8, 47u8, 108u8, 111u8, 99u8, 97u8, 108u8, 45u8, 115u8, 101u8, 115u8, 115u8, 105u8, 111u8, 110u8, 45u8, 104u8, 97u8, 110u8, 100u8, 108u8, 101u8, 47u8, 118u8, 49u8];
    assert(r@ =~= session_handle_domain_spec());
    r
}

/// Domain separator of message ids. (`ARCIUM-MESSAGE-ID-V1`)
pub open spec fn message_id_domain_spec() -> Seq<u8> {
    seq![65u8, 82u8, 67u8, 73u8, 85u8, 77u8, 45u8, 77u8, 69u8, 83u8, 83u8, 65u8, 71u8, 69u8, 45u8, 73u8, 68u8, 45u8, 86u8, 49u8]
}

/// Domain separator of message ids. (`ARCIUM-MESSAGE-ID-V1`)
pub fn message_id_domain() -> (r: [u8; 20])
    ensures
        r@ == message_id_domain_spec(),
{
    let r = [65u8, 82u8, 67u8, 73u8, 85u8, 77u8, 45u8, 77u8, 69u8, 83u8, 83u8, 65u8, 71u8, 69u8, 45u8, 73u8, 68u8, 45u8, 86u8, 49u8];
    assert(r@ =~= message_id_domain_spec());
    r
}

/// HKDF info of the hybrid KEM. (`HybridKEM/v1`)
pub open spec fn hybrid_kem_info_spec() -> Seq<u8> {
    seq![72u8, 121u8, 98u8, 114u8, 105u8, 100u8, 75u8, 69u8, 77u8, 47u8, 118u8, 49u8]
}

/// HKDF info of the hybrid KEM. (`HybridKEM/v1`)
pub fn hybrid_kem_info() -> (r: [u8; 12])
    ensures
        r@ == hybrid_kem_info_spec(),
{
    let r = [72u8, 121u8, 98u8, 114u8, 105u8, 100u8, 75u8, 69u8, 77u8, 47u8, 118u8, 49u8];
    assert(r@ =~= hybrid_kem_info_spec());
    r
}

/// HKDF salt of store key-name hashes. (`core-storage/key-name-hash/v1`)
pub open spec fn key_name_hash_salt_spec() -> Seq<u8> {
    seq![99u8, 111u8, 114u8, 101u8, 45u8, 115u8, 116u8, 111u8, 114u8, 97u8, 103u8, 101u8, 47u8, 107u8, 101u8, 121u8, 45u8, 110u8, 97u8, 109u8, 101u8, 45u8, 104u8, 97u8, 115u8, 104u8, 47u8, 118u8, 49u8]
}

/// HKDF salt of store key-name hashes. (`core-storage/key-name-hash/v1`)
pub fn key_name_hash_salt() -> (r: [u8; 29])
    ensures
        r@ == key_name_hash_salt_spec(),
{
    let r = [99u8, 111u8, 114u8, 101u8, 45u8, 115u8, 116u8, 111u8, 114u8, 97u8, 103u8, 101u8, 47u8, 107u8, 101u8, 121u8, 45u8, 110u8, 97u8, 109u8, 101u8, 45u8, 104u8, 97u8, 115u8, 104u8, 47u8, 118u8, 49u8];
    assert(r@ =~= key_name_hash_salt_spec());
    r
}

/// HKDF salt of the key-name encryption subkey. (`core-storage/key-name-enc/v1`)
pub open spec fn key_name_enc_salt_spec() -> Seq<u8> {
    seq![99u8, 111u8, 114u8, 101u8, 45u8, 115u8, 116u8, 111u8, 114u8, 97u8, 103u8, 101u8, 47u8, 107u8, 101u8, 121u8, 45u8, 110u8, 97u8, 109u8, 101u8, 45u8, 101u8, 110u8, 99u8, 47u8, 118u8, 49u8]
}

/// HKDF salt of the key-name encryption subkey. (`core-storage/key-name-enc/v1`)
pub fn key_name_enc_salt() -> (r: [u8; 28])
    ensures
        r@ == key_name_enc_salt_spec(),
{
    let r = [99u8, 111u8, 114u8, 101u8, 45u8, 115u8, 116u8, 111u8, 114u8, 97u8, 103u8, 101u8, 47u8, 107u8, 101u8, 121u8, 45u8, 110u8, 97u8, 109u8, 101u8, 45u8, 101u8, 110u8, 99u8, 47u8, 118u8, 49u8];
    assert(r@ =~= key_name_enc_salt_spec());
    r
}

/// HKDF salt of per-key value subkeys. (`core-storage/v1`)
pub open spec fn value_subkey_salt_spec() -> Seq<u8> {
    seq![99u8, 111u8, 114u8, 101u8, 45u8, 115u8, 116u8, 111u8, 114u8, 97u8, 103u8, 101u8, 47u8, 118u8, 49u8]
}

/// HKDF salt of per-key value subkeys. (`core-storage/v1`)
pub fn value_subkey_salt() -> (r: [u8; 15])
    ensures
        r@ == value_subkey_salt_spec(),
{
    let r = [99u8, 111u8, 114u8, 101u8, 45u8, 115u8, 116u8, 111u8, 114u8, 97u8, 103u8, 101u8, 47u8, 118u8, 49u8];
    assert(r@ =~= value_subkey_salt_spec());
    r
}

} // verus!
