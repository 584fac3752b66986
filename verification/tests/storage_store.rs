use arcium_core::storage::{EncryptedStore, StorageError};
use rand_core::{OsRng, RngCore};
use std::time::Duration;

fn random_key() -> [u8; 32] {
    let mut k = [0u8; 32];
    OsRng.fill_bytes(&mut k);
    k
}

/// A fresh database path that no other test uses.
fn temp_db() -> String {
    let mut b = [0u8; 8];
    OsRng.fill_bytes(&mut b);
    format!("/tmp/arcium-core-store-{:016x}.db", u64::from_le_bytes(b))
}

fn file_store(path: &str, key: [u8; 32]) -> EncryptedStore {
    EncryptedStore::open(path, key).unwrap()
}

fn assert_absent(store: &mut EncryptedStore, key: &str) {
    assert!(matches!(store.get(key), Err(StorageError::NotFound)), "{key} must not exist");
}

#[test]
fn put_and_get_round_trip() {
    let mut store = EncryptedStore::open_in_memory(random_key()).unwrap();
    store.put("contact:alice", b"alice public key bytes").unwrap();
    let got = store.get("contact:alice").unwrap();
    assert_eq!(got, b"alice public key bytes");
}

#[test]
fn missing_key_is_not_found() {
    let mut store = EncryptedStore::open_in_memory(random_key()).unwrap();
    match store.get("nope") {
        Err(StorageError::NotFound) => {}
        other => panic!("expected NotFound, got {:?}", other),
    }
}

#[test]
fn overwrite_replaces_value() {
    let mut store = EncryptedStore::open_in_memory(random_key()).unwrap();
    store.put("session:bob", b"first").unwrap();
    store.put("session:bob", b"second").unwrap();
    assert_eq!(store.get("session:bob").unwrap(), b"second");
}

#[test]
fn delete_removes_key() {
    let mut store = EncryptedStore::open_in_memory(random_key()).unwrap();
    store.put("k", b"v").unwrap();
    store.delete("k").unwrap();
    assert!(matches!(store.get("k"), Err(StorageError::NotFound)));
}

#[test]
fn list_keys_with_prefix_works() {
    let mut store = EncryptedStore::open_in_memory(random_key()).unwrap();
    store.put("contact:alice", b"a").unwrap();
    store.put("contact:bob", b"b").unwrap();
    store.put("session:bob", b"s").unwrap();
    let mut contacts = store.list_keys_with_prefix("contact:").unwrap();
    contacts.sort();
    assert_eq!(contacts, vec!["contact:alice", "contact:bob"]);
}

#[test]
fn list_keys_with_prefix_percent_is_literal() {
    let mut store = EncryptedStore::open_in_memory(random_key()).unwrap();
    store.put("a%b:foo", b"target").unwrap();
    store.put("axb:bar", b"should not match").unwrap();
    let keys = store.list_keys_with_prefix("a%b:").unwrap();
    assert_eq!(keys, vec!["a%b:foo"], "% in prefix must be treated literally");
}

#[test]
fn list_keys_with_prefix_underscore_is_literal() {
    let mut store = EncryptedStore::open_in_memory(random_key()).unwrap();
    store.put("a_b:foo", b"target").unwrap();
    store.put("axb:bar", b"should not match").unwrap();
    let keys = store.list_keys_with_prefix("a_b:").unwrap();
    assert_eq!(keys, vec!["a_b:foo"], "_ in prefix must be treated literally");
}

#[test]
fn wrong_master_key_cannot_read_value() {
    let path = temp_db();
    let key1 = random_key();
    {
        let mut store = EncryptedStore::open(&path, key1).unwrap();
        store.put("secret", b"top secret value").unwrap();
    }
    let key2 = random_key();
    let mut store = EncryptedStore::open(&path, key2).unwrap();
    match store.get("secret") {
        Err(StorageError::NotFound) | Err(StorageError::Decryption) => {}
        other => panic!("expected NotFound or Decryption, got {:?}", other),
    }
}

#[test]
fn data_persists_across_reopen() {
    let path = temp_db();
    let key = random_key();
    {
        let mut store = EncryptedStore::open(&path, key).unwrap();
        store.put("contact:alice", b"persistent value").unwrap();
    }
    let mut store = EncryptedStore::open(&path, key).unwrap();
    assert_eq!(store.get("contact:alice").unwrap(), b"persistent value");
}

#[test]
fn each_key_has_its_own_subkey() {
    let mut store = EncryptedStore::open_in_memory(random_key()).unwrap();
    store.put("a", b"same value").unwrap();
    store.put("b", b"same value").unwrap();
    let ct_a: Vec<u8> = store
        .conn()
        .query_row("SELECT v FROM kv WHERE k = ?1", [store.storage_key("a")], |r| r.get(0))
        .unwrap();
    let ct_b: Vec<u8> = store
        .conn()
        .query_row("SELECT v FROM kv WHERE k = ?1", [store.storage_key("b")], |r| r.get(0))
        .unwrap();
    assert_ne!(ct_a, ct_b, "subkeys must produce different ciphertexts");
}

#[test]
fn same_key_name_hashes_identically_across_instances() {
    let key = random_key();
    let path = temp_db();
    {
        let mut store = EncryptedStore::open(&path, key).unwrap();
        store.put("identity/v1", b"identity bytes").unwrap();
    }
    let mut store = EncryptedStore::open(&path, key).unwrap();
    assert_eq!(store.get("identity/v1").unwrap(), b"identity bytes");
}

#[test]
fn list_keys_with_prefix_does_not_match_partial_non_namespace_prefix() {
    let mut store = EncryptedStore::open_in_memory(random_key()).unwrap();
    store.put("contact:alice", b"a").unwrap();
    assert_eq!(
        store.list_keys_with_prefix("cont").unwrap(),
        Vec::<String>::new(),
        "a prefix that isn't the full namespace must not match"
    );
    assert_eq!(store.list_keys_with_prefix("contact:").unwrap(), vec!["contact:alice"]);
}

#[test]
fn deleted_value_is_not_recoverable_via_get() {
    let mut store = EncryptedStore::open_in_memory(random_key()).unwrap();
    store.put("k", b"sensitive").unwrap();
    store.delete("k").unwrap();
    assert!(matches!(store.get("k"), Err(StorageError::NotFound)));
}

#[test]
fn secure_delete_pragma_is_enabled() {
    let mut store = EncryptedStore::open_in_memory(random_key()).unwrap();
    let mode: i64 = store.conn().query_row("PRAGMA secure_delete", [], |r| r.get(0)).unwrap();
    assert_ne!(mode, 0, "secure_delete must be enabled, not left at the SQLite default");
}

#[test]
fn transaction_commits_multiple_records_together() {
    let path = temp_db();
    let mut store = file_store(&path, random_key());
    let mut tx = store.transaction().unwrap();
    tx.put("session:alice", b"ratchet-a").unwrap();
    tx.put("outbox:1", b"blob-1").unwrap();
    tx.put("outbox:2", b"blob-2").unwrap();
    tx.commit().unwrap();
    assert_eq!(store.get("session:alice").unwrap(), b"ratchet-a");
    assert_eq!(store.get("outbox:1").unwrap(), b"blob-1");
    assert_eq!(store.get("outbox:2").unwrap(), b"blob-2");
}

#[test]
fn transaction_reads_its_own_writes() {
    let mut store = EncryptedStore::open_in_memory(random_key()).unwrap();
    store.put("k", b"before").unwrap();
    let mut tx = store.transaction().unwrap();
    assert_eq!(tx.get("k").unwrap(), b"before");
    tx.put("k", b"during").unwrap();
    assert_eq!(tx.get("k").unwrap(), b"during");
    tx.delete("k").unwrap();
    assert!(matches!(tx.get("k"), Err(StorageError::NotFound)));
    tx.commit().unwrap();
    assert!(matches!(store.get("k"), Err(StorageError::NotFound)));
}

fn work(store: &mut EncryptedStore) -> Result<(), StorageError> {
    let mut tx = store.transaction()?;
    tx.put("a", b"1")?;
    tx.put("b", b"2")?;
    tx.delete("base")?;
    tx.get("does-not-exist")?;
    tx.commit()
}

#[test]
fn failed_operation_rolls_back_earlier_writes() {
    let path = temp_db();
    let mut store = file_store(&path, random_key());
    store.put("base", b"kept").unwrap();
    assert!(matches!(work(&mut store), Err(StorageError::NotFound)));
    assert_absent(&mut store, "a");
    assert_absent(&mut store, "b");
    assert_eq!(store.get("base").unwrap(), b"kept", "the delete must be undone too");
}

#[test]
fn mixed_insert_update_delete_commit_together() {
    let mut store = EncryptedStore::open_in_memory(random_key()).unwrap();
    store.put("update", b"old").unwrap();
    store.put("remove", b"gone-soon").unwrap();
    let mut tx = store.transaction().unwrap();
    tx.put("insert", b"new").unwrap();
    tx.put("update", b"new-value").unwrap();
    tx.delete("remove").unwrap();
    tx.commit().unwrap();
    assert_eq!(store.get("insert").unwrap(), b"new");
    assert_eq!(store.get("update").unwrap(), b"new-value");
    assert_absent(&mut store, "remove");
}

#[test]
fn mixed_insert_update_delete_roll_back_together() {
    let mut store = EncryptedStore::open_in_memory(random_key()).unwrap();
    store.put("update", b"old").unwrap();
    store.put("remove", b"still-here").unwrap();
    let mut tx = store.transaction().unwrap();
    tx.put("insert", b"new").unwrap();
    tx.put("update", b"new-value").unwrap();
    tx.delete("remove").unwrap();
    tx.rollback().unwrap();
    assert_absent(&mut store, "insert");
    assert_eq!(store.get("update").unwrap(), b"old");
    assert_eq!(store.get("remove").unwrap(), b"still-here");
}

#[test]
fn dropping_without_commit_rolls_back() {
    let mut store = EncryptedStore::open_in_memory(random_key()).unwrap();
    {
        let mut tx = store.transaction().unwrap();
        tx.put("k", b"v").unwrap();
    }
    assert_absent(&mut store, "k");
}

#[test]
fn committed_records_are_visible_after_reopen() {
    let path = temp_db();
    let key = random_key();
    {
        let mut store = file_store(&path, key);
        let mut tx = store.transaction().unwrap();
        tx.put("x", b"1").unwrap();
        tx.put("y", b"2").unwrap();
        tx.commit().unwrap();
    }
    let mut store = file_store(&path, key);
    assert_eq!(store.get("x").unwrap(), b"1");
    assert_eq!(store.get("y").unwrap(), b"2");
}

#[test]
fn aborted_transaction_preserves_committed_records_across_reopen() {
    let path = temp_db();
    let key = random_key();
    {
        let mut store = file_store(&path, key);
        store.put("a", b"committed-a").unwrap();
        store.put("c", b"committed-c").unwrap();
        let mut tx = store.transaction().unwrap();
        tx.put("a", b"uncommitted").unwrap();
        tx.put("b", b"uncommitted").unwrap();
        tx.delete("c").unwrap();
        drop(tx);
    }
    let mut store = file_store(&path, key);
    assert_eq!(store.get("a").unwrap(), b"committed-a");
    assert_absent(&mut store, "b");
    assert_eq!(store.get("c").unwrap(), b"committed-c");
}

#[test]
fn other_connection_never_sees_partial_transaction() {
    let path = temp_db();
    let key = random_key();
    let mut writer = file_store(&path, key);
    let mut reader = file_store(&path, key);
    writer.put("left", b"0").unwrap();
    let mut tx = writer.transaction().unwrap();
    tx.put("left", b"1").unwrap();
    tx.put("right", b"1").unwrap();
    assert_eq!(reader.get("left").unwrap(), b"0", "uncommitted update leaked");
    assert_absent(&mut reader, "right");
    tx.commit().unwrap();
    assert_eq!(reader.get("left").unwrap(), b"1");
    assert_eq!(reader.get("right").unwrap(), b"1");
}

#[test]
fn contended_begin_fails_cleanly_and_later_succeeds() {
    let path = temp_db();
    let key = random_key();
    let mut holder = file_store(&path, key);
    let mut other = file_store(&path, key);
    other.conn().busy_timeout(Duration::from_millis(50)).unwrap();

    let mut held = holder.transaction().unwrap();
    held.put("holder", b"1").unwrap();

    match other.transaction() {
        Err(StorageError::Db(rusqlite::Error::SqliteFailure(e, _))) => {
            assert_eq!(e.code, rusqlite::ErrorCode::DatabaseBusy);
        }
        Err(e) => panic!("expected SQLITE_BUSY, got {e:?}"),
        Ok(_) => panic!("a second writer must not begin while the first holds the lock"),
    }

    held.commit().unwrap();

    let mut tx = other.transaction().unwrap();
    tx.put("other", b"2").unwrap();
    tx.commit().unwrap();
    assert_eq!(holder.get("other").unwrap(), b"2");
    assert_eq!(other.get("holder").unwrap(), b"1");
}

#[test]
fn durability_configuration_is_unchanged() {
    let path = temp_db();
    let mut store = file_store(&path, random_key());
    let journal: String = store.conn().query_row("PRAGMA journal_mode", [], |r| r.get(0)).unwrap();
    let sync: i64 = store.conn().query_row("PRAGMA synchronous", [], |r| r.get(0)).unwrap();
    let busy: i64 = store.conn().query_row("PRAGMA busy_timeout", [], |r| r.get(0)).unwrap();
    assert_eq!(journal, "delete", "rollback-journal mode");
    assert_eq!(sync, 2, "synchronous = FULL");
    assert_eq!(busy, 5000, "rusqlite's per-connection default");
}
