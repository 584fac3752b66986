//! An encrypted key-value store on SQLite.
//!
//! Each value is sealed with XChaCha20-Poly1305 under a subkey derived from
//! the master key and the record's key name, with the key name as associated
//! data, so the same plaintext under two names gives unrelated ciphertexts
//! and a value cannot be moved to another name. Key names are stored only as
//! master-key-derived hashes (the hash of the name's namespace, then the hash
//! of the whole name), with the name itself sealed beside them so that a
//! namespace can be listed. Rows hold `(k, ek, v)`: lookup key, sealed name,
//! sealed value.

use vstd::prelude::*;
use vstd::string::StringSliceAdditionalSpecFns;
use vstd::utf8::{decode_utf8, encode_utf8, valid_utf8};

use crate::buf::{append_bytes, array32_at};
use crate::text::push_str;
use crate::crypto::{
    aead_max_plaintext, fill_random, hkdf_sha256, hkdf_sha256_spec, xchacha_open,
    xchacha_open_spec, xchacha_seal, xchacha_seal_spec,
};
use crate::labels::{
    key_name_enc_salt, key_name_enc_salt_spec, key_name_hash_salt, key_name_hash_salt_spec,
    value_subkey_salt, value_subkey_salt_spec,
};

verus! {

/// Nonce length of the value and name ciphers.
pub const NONCE_SIZE: usize = 24;

/// Length of each of the two hashes a lookup key is made of.
pub const NAME_HASH_LEN: usize = 32;

/// The byte `:` that ends a key name's namespace.
pub const NAMESPACE_END: u8 = 0x3a;

// ── Key names ─────────────────────────────────────────────────────────────────

/// Position of the first `:` in `k`, if any.
pub open spec fn first_colon(k: Seq<u8>) -> Option<int>
    decreases k.len(),
{
    if k.len() == 0 {
        None
    } else if k[0] == NAMESPACE_END {
        Some(0)
    } else {
        match first_colon(k.drop_first()) {
            Some(i) => Some(i + 1),
            None => None,
        }
    }
}

/// The namespace of a key name: everything up to and including its first
/// `:`, or the whole name if it has none.
pub open spec fn namespace_spec(k: Seq<u8>) -> Seq<u8> {
    match first_colon(k) {
        Some(i) => k.subrange(0, i + 1),
        None => k,
    }
}

proof fn lemma_first_colon(k: Seq<u8>, i: int)
    requires
        0 <= i <= k.len(),
        forall|j: int| 0 <= j < i ==> k[j] != NAMESPACE_END,
    ensures
        i < k.len() && k[i] == NAMESPACE_END ==> first_colon(k) == Some(i),
        i == k.len() ==> first_colon(k) is None,
    decreases i,
{
    if i > 0 {
        lemma_first_colon(k.drop_first(), i - 1);
    }
}

/// The key hash of `s`: HKDF-SHA256 of the master key, salted with
/// `core-storage/key-name-hash/v1`, with `s` as info.
pub open spec fn name_hash_spec(master: Seq<u8>, s: Seq<u8>) -> Seq<u8> {
    hkdf_sha256_spec(Some(key_name_hash_salt_spec()), master, s, 32)
}

/// The lookup key of a record: its namespace's hash, then its own.
pub open spec fn storage_key_spec(master: Seq<u8>, key: Seq<u8>) -> Seq<u8> {
    name_hash_spec(master, namespace_spec(key)) + name_hash_spec(master, key)
}

/// The subkey that seals the values of one key name.
pub open spec fn value_subkey_spec(master: Seq<u8>, key: Seq<u8>) -> Seq<u8> {
    hkdf_sha256_spec(Some(value_subkey_salt_spec()), master, key, 32)
}

/// The one subkey that seals key names.
pub open spec fn name_subkey_spec(master: Seq<u8>) -> Seq<u8> {
    hkdf_sha256_spec(Some(key_name_enc_salt_spec()), master, Seq::empty(), 32)
}

/// A sealed value: the nonce, then the ciphertext of `pt` under the key
/// name's subkey with the key name as associated data.
pub open spec fn sealed_value_spec(master: Seq<u8>, key: Seq<u8>, nonce: Seq<u8>, pt: Seq<u8>) -> Seq<u8> {
    nonce + xchacha_seal_spec(value_subkey_spec(master, key), nonce, pt, key)
}

/// What opening a stored value blob gives: the plaintext, or `None` if it is
/// too short or does not authenticate under this key name.
pub open spec fn open_value_spec(master: Seq<u8>, key: Seq<u8>, blob: Seq<u8>) -> Option<Seq<u8>> {
    if blob.len() < NONCE_SIZE {
        None
    } else {
        xchacha_open_spec(
            value_subkey_spec(master, key),
            blob.subrange(0, 24),
            blob.subrange(24, blob.len() as int),
            key,
        )
    }
}

/// A sealed key name: the nonce, then the ciphertext of the name's bytes.
pub open spec fn sealed_name_spec(master: Seq<u8>, nonce: Seq<u8>, name: Seq<u8>) -> Seq<u8> {
    nonce + xchacha_seal_spec(name_subkey_spec(master), nonce, name, Seq::empty())
}

/// The bytes a sealed key name opens to, if it authenticates.
pub open spec fn open_name_spec(master: Seq<u8>, blob: Seq<u8>) -> Option<Seq<u8>> {
    if blob.len() < NONCE_SIZE {
        None
    } else {
        xchacha_open_spec(
            name_subkey_spec(master),
            blob.subrange(0, 24),
            blob.subrange(24, blob.len() as int),
            Seq::empty(),
        )
    }
}

// ── The database ──────────────────────────────────────────────────────────────

/// An error reported by SQLite through `rusqlite`.
#[verifier::external_type_specification]
#[verifier::external_body]
pub struct ExDbError(rusqlite::Error);

/// A `rusqlite` connection to one SQLite database.
#[verifier::external_type_specification]
#[verifier::external_body]
pub struct ExConnection(rusqlite::Connection);

/// An open `rusqlite` transaction; dropping it rolls back.
#[verifier::external_type_specification]
#[verifier::external_body]
pub struct ExTransaction<'conn>(rusqlite::Transaction<'conn>);

/// Why a store operation failed.
#[derive(Debug)]
pub enum StorageError {
    /// The database refused or failed the operation.
    Db(rusqlite::Error),
    /// A stored value or name does not authenticate (wrong master key or
    /// corrupted data), or a value is too long to seal.
    Decryption,
    /// No record has this key name.
    NotFound,
}

/// The text of a database error. Calls `ToString::to_string` through its
/// `Display`; what the text says is SQLite's and rusqlite's and is not stated.
#[verifier::external_body]
fn db_error_text(e: &rusqlite::Error) -> (s: String) {
    e.to_string()
}

impl StorageError {
    /// The error message.
    pub fn to_string(&self) -> (s: String)
        ensures
            self is Db ==> exists|t: Seq<char>| s@ == "database error: "@ + t,
            self is Decryption ==> s@ == "decryption failed (wrong key or corrupted data)"@,
            self is NotFound ==> s@ == "key not found"@,
    {
        let mut s = String::new();
        match self {
            StorageError::Db(e) => {
                push_str(&mut s, "database error: ");
                let t = db_error_text(e);
                push_str(&mut s, t.as_str());
            },
            StorageError::Decryption => push_str(&mut s, "decryption failed (wrong key or corrupted data)"),
            StorageError::NotFound => push_str(&mut s, "key not found"),
        }
        s
    }
}

/// The master key and every derivation made from it.
pub struct KeyMaterial {
    master_key: [u8; 32],
}

impl View for KeyMaterial {
    type V = Seq<u8>;

    closed spec fn view(&self) -> Seq<u8> {
        self.master_key@
    }
}

/// The bytes of `s` from `start` on.
fn tail(s: &[u8], start: usize) -> (t: &[u8])
    requires
        start <= s@.len(),
    ensures
        t@ == s@.subrange(start as int, s@.len() as int),
{
    &s[start..s.len()]
}

impl KeyMaterial {
    pub fn new(master_key: [u8; 32]) -> (k: Self)
        ensures
            k@ == master_key@,
    {
        KeyMaterial { master_key }
    }

    /// The namespace of `key`: everything up to and including its first `:`,
    /// or the whole key if it has none.
    pub fn namespace_of(key: &[u8]) -> (ns: &[u8])
        ensures
            ns@ == namespace_spec(key@),
    {
        let mut i: usize = 0;
        while i < key.len()
            invariant
                i <= key@.len(),
                forall|j: int| 0 <= j < i ==> key@[j] != NAMESPACE_END,
            decreases key@.len() - i,
        {
            if key[i] == NAMESPACE_END {
                proof {
                    lemma_first_colon(key@, i as int);
                }
                return &key[0..i + 1];
            }
            i = i + 1;
        }
        proof {
            lemma_first_colon(key@, i as int);
        }
        key
    }

    /// The master-key-derived hash of `s`, deterministic and one-way.
    fn key_name_hash(&self, s: &[u8]) -> (h: [u8; 32])
        ensures
            h@ == name_hash_spec(self@, s@),
    {
        let salt = key_name_hash_salt();
        let okm = hkdf_sha256(Some(salt.as_slice()), self.master_key.as_slice(), s, NAME_HASH_LEN);
        array32_at(okm.as_slice(), 0)
    }

    /// The lookup key stored in `kv.k`: the namespace hash, then the hash of
    /// the whole key name.
    pub fn storage_key(&self, key: &str) -> (sk: Vec<u8>)
        ensures
            sk@ == storage_key_spec(self@, key.spec_bytes()),
            sk@.len() == 64,
    {
        let bytes = key.as_bytes();
        let ns_hash = self.key_name_hash(Self::namespace_of(bytes));
        let full_hash = self.key_name_hash(bytes);
        let mut out: Vec<u8> = Vec::with_capacity(NAME_HASH_LEN * 2);
        append_bytes(&mut out, ns_hash.as_slice());
        append_bytes(&mut out, full_hash.as_slice());
        out
    }

    /// The subkey that seals key names, separate from every value subkey and
    /// from the name hash by its salt.
    fn key_name_encryption_subkey(&self) -> (sk: [u8; 32])
        ensures
            sk@ == name_subkey_spec(self@),
    {
        let salt = key_name_enc_salt();
        let empty: [u8; 0] = [];
        assert(empty@ =~= Seq::<u8>::empty());
        let okm = hkdf_sha256(Some(salt.as_slice()), self.master_key.as_slice(), empty.as_slice(), 32);
        array32_at(okm.as_slice(), 0)
    }

    /// The subkey that seals the values of `key`.
    fn subkey(&self, key: &[u8]) -> (sk: [u8; 32])
        ensures
            sk@ == value_subkey_spec(self@, key@),
    {
        let salt = value_subkey_salt();
        let okm = hkdf_sha256(Some(salt.as_slice()), self.master_key.as_slice(), key, 32);
        array32_at(okm.as_slice(), 0)
    }

    /// Seals the key name itself under a fresh random nonce, so the real
    /// names of a listed namespace can be recovered.
    pub fn encrypt_key_name(&self, key: &str) -> (blob: Vec<u8>)
        requires
            key.spec_bytes().len() <= aead_max_plaintext(),
        ensures
            exists|nonce: Seq<u8>|
                nonce.len() == 24 && blob@ == #[trigger] sealed_name_spec(self@, nonce, key.spec_bytes()),
    {
        let sk = self.key_name_encryption_subkey();
        let mut nonce = [0u8; 24];
        fill_random(vstd::array::ref_mut_array_unsizing_coercion(&mut nonce));
        let empty: [u8; 0] = [];
        assert(empty@ =~= Seq::<u8>::empty());
        let ct = xchacha_seal(&sk, &nonce, key.as_bytes(), empty.as_slice());
        let mut out: Vec<u8> = Vec::new();
        append_bytes(&mut out, nonce.as_slice());
        append_bytes(&mut out, ct.as_slice());
        assert(out@ == sealed_name_spec(self@, nonce@, key.spec_bytes()));
        out
    }

    /// Opens a sealed key name. A blob that is too short, does not
    /// authenticate, or is not UTF-8 is a decryption error.
    pub fn decrypt_key_name(&self, ct_with_nonce: &[u8]) -> (r: Result<String, StorageError>)
        ensures
            r matches Ok(s) ==> open_name_spec(self@, ct_with_nonce@) matches Some(b) && valid_utf8(
                b,
            ) && s@ == decode_utf8(b),
            r matches Err(e) ==> e is Decryption,
            r is Ok <==> (open_name_spec(self@, ct_with_nonce@) matches Some(b) && valid_utf8(b)),
            forall|nonce: Seq<u8>, name: Seq<char>|
                nonce.len() == 24 && encode_utf8(name).len() <= aead_max_plaintext() && ct_with_nonce@
                    == #[trigger] sealed_name_spec(
                    self@,
                    nonce,
                    encode_utf8(name),
                ) ==> (r matches Ok(s) && s@ == name),
    {
        if ct_with_nonce.len() < NONCE_SIZE {
            return Err(StorageError::Decryption);
        }
        let nonce = &ct_with_nonce[0..NONCE_SIZE];
        let ct = tail(ct_with_nonce, NONCE_SIZE);
        let sk = self.key_name_encryption_subkey();
        let empty: [u8; 0] = [];
        assert(empty@ =~= Seq::<u8>::empty());
        let pt = match xchacha_open(&sk, nonce, ct, empty.as_slice()) {
            Some(p) => p,
            None => {
                proof {
                    assert forall|n: Seq<u8>, name: Seq<char>|
                        n.len() == 24 && encode_utf8(name).len() <= aead_max_plaintext() && ct_with_nonce@
                            == #[trigger] sealed_name_spec(
                            self@,
                            n,
                            encode_utf8(name),
                        ) implies false by {
                        assert(n =~= ct_with_nonce@.subrange(0, 24));
                        assert(ct@ =~= xchacha_seal_spec(name_subkey_spec(self@), n, encode_utf8(name), Seq::empty()));
                    }
                }
                return Err(StorageError::Decryption);
            },
        };
        proof {
            assert forall|n: Seq<u8>, name: Seq<char>|
                n.len() == 24 && encode_utf8(name).len() <= aead_max_plaintext() && ct_with_nonce@
                            == #[trigger] sealed_name_spec(
                    self@,
                    n,
                    encode_utf8(name),
                ) implies pt@ == encode_utf8(name) && valid_utf8(pt@) && decode_utf8(pt@) == name by {
                assert(n =~= ct_with_nonce@.subrange(0, 24));
                assert(ct@ =~= xchacha_seal_spec(name_subkey_spec(self@), n, encode_utf8(name), Seq::empty()));
                vstd::utf8::encode_utf8_valid_utf8(name);
                vstd::utf8::encode_utf8_decode_utf8(name);
            }
        }
        match string_from_utf8(pt) {
            Some(s) => Ok(s),
            None => Err(StorageError::Decryption),
        }
    }

    /// Seals `plaintext` as the value of `key` under a fresh random nonce.
    /// A plaintext above the cipher's length limit is refused.
    pub fn encrypt(&self, key: &str, plaintext: &[u8]) -> (r: Result<Vec<u8>, StorageError>)
        ensures
            r is Ok <==> plaintext@.len() <= aead_max_plaintext(),
            r matches Err(e) ==> e is Decryption,
            r matches Ok(blob) ==> exists|nonce: Seq<u8>|
                nonce.len() == 24 && blob@ == #[trigger] sealed_value_spec(
                    self@,
                    key.spec_bytes(),
                    nonce,
                    plaintext@,
                ),
    {
        if plaintext.len() as u64 > 274877906879u64 {
            return Err(StorageError::Decryption);
        }
        let kb = key.as_bytes();
        let sk = self.subkey(kb);
        let mut nonce = [0u8; 24];
        fill_random(vstd::array::ref_mut_array_unsizing_coercion(&mut nonce));
        let ct = xchacha_seal(&sk, &nonce, plaintext, kb);
        let mut out: Vec<u8> = Vec::new();
        append_bytes(&mut out, nonce.as_slice());
        append_bytes(&mut out, ct.as_slice());
        assert(out@ == sealed_value_spec(self@, key.spec_bytes(), nonce@, plaintext@));
        Ok(out)
    }

    /// Opens the value blob of `key`. What [`encrypt`](Self::encrypt) sealed
    /// for the same key name opens to its plaintext; anything else that does
    /// not authenticate, including a blob moved from another key name, is a
    /// decryption error.
    pub fn decrypt(&self, key: &str, ct_with_nonce: &[u8]) -> (r: Result<Vec<u8>, StorageError>)
        ensures
            r is Ok <==> open_value_spec(self@, key.spec_bytes(), ct_with_nonce@) is Some,
            r matches Ok(p) ==> open_value_spec(self@, key.spec_bytes(), ct_with_nonce@) == Some(p@),
            r matches Err(e) ==> e is Decryption,
            forall|nonce: Seq<u8>, pt: Seq<u8>|
                nonce.len() == 24 && pt.len() <= aead_max_plaintext() && ct_with_nonce@
                    == #[trigger] sealed_value_spec(
                    self@,
                    key.spec_bytes(),
                    nonce,
                    pt,
                ) ==> (r matches Ok(p) && p@ == pt),
    {
        if ct_with_nonce.len() < NONCE_SIZE {
            return Err(StorageError::Decryption);
        }
        let kb = key.as_bytes();
        let nonce = &ct_with_nonce[0..NONCE_SIZE];
        let ct = tail(ct_with_nonce, NONCE_SIZE);
        let sk = self.subkey(kb);
        let r = xchacha_open(&sk, nonce, ct, kb);
        proof {
            assert forall|n: Seq<u8>, pt: Seq<u8>|
                n.len() == 24 && pt.len() <= aead_max_plaintext() && ct_with_nonce@
                    == #[trigger] sealed_value_spec(
                    self@,
                    key.spec_bytes(),
                    n,
                    pt,
                ) implies (r matches Some(p) && p@ == pt) by {
                assert(n =~= ct_with_nonce@.subrange(0, 24));
                assert(ct@ =~= xchacha_seal_spec(value_subkey_spec(self@, key.spec_bytes()), n, pt, key.spec_bytes()));
            }
        }
        match r {
            Some(p) => Ok(p),
            None => Err(StorageError::Decryption),
        }
    }
}

/// The string whose UTF-8 encoding is `bytes`, if they are UTF-8. Calls
/// `String::from_utf8`, which accepts exactly the valid UTF-8 byte strings.
#[verifier::external_body]
fn string_from_utf8(bytes: Vec<u8>) -> (r: Option<String>)
    ensures
        r is Some <==> valid_utf8(bytes@),
        r matches Some(s) ==> s@ == decode_utf8(bytes@),
{
    String::from_utf8(bytes).ok()
}

// ── Database calls ────────────────────────────────────────────────────────────
//
// What a query returns depends on what is on disk, so these promise nothing
// of their results beyond their types.

/// Opens, creating it if needed, the database file at `path`. Calls
/// `rusqlite::Connection::open`.
#[verifier::external_body]
fn db_open(path: &str) -> (r: Result<rusqlite::Connection, rusqlite::Error>) {
    rusqlite::Connection::open(path)
}

/// Opens a private in-memory database. Calls
/// `rusqlite::Connection::open_in_memory`.
#[verifier::external_body]
fn db_open_in_memory() -> (r: Result<rusqlite::Connection, rusqlite::Error>) {
    rusqlite::Connection::open_in_memory()
}

/// Runs the statements of `sql`. Calls `rusqlite::Connection::execute_batch`.
#[verifier::external_body]
fn db_execute_batch(conn: &rusqlite::Connection, sql: &str) -> (r: Result<(), rusqlite::Error>) {
    conn.execute_batch(sql)
}

/// Runs one statement with blob parameters bound in order. Calls
/// `rusqlite::Connection::execute`.
#[verifier::external_body]
fn db_execute(conn: &rusqlite::Connection, sql: &str, params: &[&[u8]]) -> (r: Result<
    usize,
    rusqlite::Error,
>) {
    conn.execute(sql, rusqlite::params_from_iter(params.iter()))
}

/// The blob in the first column of the one row `sql` selects with `param`,
/// or `None` when it selects none. Calls `rusqlite::Connection::query_row`,
/// whose `QueryReturnedNoRows` error is the `None`.
#[verifier::external_body]
fn db_query_blob(conn: &rusqlite::Connection, sql: &str, param: &[u8]) -> (r: Result<
    Option<Vec<u8>>,
    rusqlite::Error,
>) {
    match conn.query_row(sql, [param], |row| row.get::<_, Vec<u8>>(0)) {
        Ok(v) => Ok(Some(v)),
        Err(rusqlite::Error::QueryReturnedNoRows) => Ok(None),
        Err(e) => Err(e),
    }
}

/// The blobs in the first column of every row `sql` selects with the
/// parameters `n` and `param`. Calls `rusqlite::Connection::prepare` and
/// `Statement::query_map`, collecting the rows in order.
#[verifier::external_body]
fn db_query_blobs(conn: &rusqlite::Connection, sql: &str, n: i64, param: &[u8]) -> (r: Result<
    Vec<Vec<u8>>,
    rusqlite::Error,
>) {
    let mut stmt = conn.prepare(sql)?;
    let rows = stmt.query_map((n, param), |r| r.get::<_, Vec<u8>>(0))?;
    rows.collect()
}

/// Begins a transaction that takes the write lock at once (`BEGIN
/// IMMEDIATE`). Calls `rusqlite::Connection::transaction_with_behavior`.
#[verifier::external_body]
fn db_begin_immediate(conn: &mut rusqlite::Connection) -> (r: Result<
    rusqlite::Transaction<'_>,
    rusqlite::Error,
>) {
    conn.transaction_with_behavior(rusqlite::TransactionBehavior::Immediate)
}

/// The connection a transaction runs on, through which its statements go.
/// Calls `Deref::deref` of `rusqlite::Transaction`.
#[verifier::external_body]
fn tx_connection<'a>(tx: &'a rusqlite::Transaction<'_>) -> (c: &'a rusqlite::Connection) {
    tx
}

/// Commits. Calls `rusqlite::Transaction::commit`.
#[verifier::external_body]
fn tx_commit(tx: rusqlite::Transaction<'_>) -> (r: Result<(), rusqlite::Error>) {
    tx.commit()
}

/// Rolls back. Calls `rusqlite::Transaction::rollback`.
#[verifier::external_body]
fn tx_rollback(tx: rusqlite::Transaction<'_>) -> (r: Result<(), rusqlite::Error>) {
    tx.rollback()
}

// ── Row operations, shared by the store and its transactions ─────────────────

/// Schema and settings: `secure_delete` makes SQLite overwrite deleted rows.
pub const SCHEMA: &'static str = "PRAGMA secure_delete = ON;
CREATE TABLE IF NOT EXISTS kv (
    k BLOB PRIMARY KEY,
    ek BLOB NOT NULL,
    v BLOB NOT NULL
);";

pub const UPSERT_ROW: &'static str = "INSERT INTO kv (k, ek, v) VALUES (?1, ?2, ?3)
ON CONFLICT(k) DO UPDATE SET v = excluded.v";

pub const SELECT_ROW: &'static str = "SELECT v FROM kv WHERE k = ?1";

pub const DELETE_ROW: &'static str = "DELETE FROM kv WHERE k = ?1";

pub const SELECT_NAMESPACE: &'static str = "SELECT ek FROM kv WHERE substr(k, 1, ?1) = ?2 ORDER BY k";

/// One statement run on SQLite: the blobs handed to it and what it
/// answered.
pub enum DbCall {
    /// A statement that writes a row (the store runs [`UPSERT_ROW`]), with
    /// the lookup key, the sealed key name and the sealed value.
    Upsert {
        sql: Seq<char>,
        key: Seq<u8>,
        name: Seq<u8>,
        value: Seq<u8>,
        answer: Result<usize, rusqlite::Error>,
    },
    /// A statement that reads one value (the store runs [`SELECT_ROW`]) with
    /// the lookup key: the value blob of the one row, if any.
    Select { sql: Seq<char>, key: Seq<u8>, answer: Result<Option<Vec<u8>>, rusqlite::Error> },
    /// A statement that deletes (the store runs [`DELETE_ROW`]) with the
    /// lookup key.
    Delete { sql: Seq<char>, key: Seq<u8>, answer: Result<usize, rusqlite::Error> },
    /// A statement that lists sealed names (the store runs
    /// [`SELECT_NAMESPACE`]) with the prefix length `n` and the namespace
    /// hash: the sealed names of the rows it selects, in lookup-key order.
    List { sql: Seq<char>, n: i64, namespace: Seq<u8>, answer: Result<Vec<Vec<u8>>, rusqlite::Error> },
}

/// The text of the statement a call ran.
pub open spec fn statement_text(call: DbCall) -> Seq<char> {
    match call {
        DbCall::Upsert { sql, .. } => sql,
        DbCall::Select { sql, .. } => sql,
        DbCall::Delete { sql, .. } => sql,
        DbCall::List { sql, .. } => sql,
    }
}

/// The upsert a write of `value` under `key` hands to SQLite: the lookup
/// key, the key name sealed under some nonce, and the value sealed under
/// some nonce.
pub open spec fn upsert_of(master: Seq<u8>, key: Seq<u8>, value: Seq<u8>, call: DbCall) -> bool {
    call matches DbCall::Upsert { sql, key: k, name, value: v, .. } && sql == UPSERT_ROW@ && k
        == storage_key_spec(master, key)
        && (exists|n: Seq<u8>| n.len() == 24 && name == #[trigger] sealed_name_spec(master, n, key))
        && (exists|n: Seq<u8>|
        n.len() == 24 && v == #[trigger] sealed_value_spec(master, key, n, value))
}

/// What a write returns for SQLite's answer to its upsert.
pub open spec fn upsert_answer(call: DbCall, r: Result<(), StorageError>) -> bool {
    call matches DbCall::Upsert { answer, .. } && match answer {
        Ok(_) => r is Ok,
        Err(e) => r matches Err(StorageError::Db(x)) && x == e,
    }
}

/// What a read of `key` returns for SQLite's answer `a` to its select:
/// `NotFound` for no row, the value if the row's blob opens under this key
/// name, and a decryption error if it does not.
pub open spec fn select_answer(
    master: Seq<u8>,
    key: Seq<u8>,
    a: Result<Option<Vec<u8>>, rusqlite::Error>,
    r: Result<Vec<u8>, StorageError>,
) -> bool {
    match a {
        Err(e) => r matches Err(StorageError::Db(x)) && x == e,
        Ok(None) => r matches Err(StorageError::NotFound),
        Ok(Some(row)) => match open_value_spec(master, key, row@) {
            Some(v) => r matches Ok(x) && x@ == v,
            None => r matches Err(StorageError::Decryption),
        },
    }
}

/// What a deletion returns for SQLite's answer to it.
pub open spec fn delete_answer(call: DbCall, r: Result<(), StorageError>) -> bool {
    call matches DbCall::Delete { answer, .. } && match answer {
        Ok(_) => r is Ok,
        Err(e) => r matches Err(StorageError::Db(x)) && x == e,
    }
}

/// The names sealed in `rows`, in order, are `names`.
pub open spec fn names_of_rows(master: Seq<u8>, rows: Seq<Vec<u8>>, names: Seq<String>) -> bool {
    &&& names.len() == rows.len()
    &&& forall|i: int|
        0 <= i < rows.len() ==> #[trigger] open_name_spec(master, rows[i]@) == Some(
            encode_utf8(names[i]@),
        )
}

/// Whether every row holds a sealed name that opens to UTF-8.
pub open spec fn rows_readable(master: Seq<u8>, rows: Seq<Vec<u8>>) -> bool {
    forall|i: int|
        0 <= i < rows.len() ==> (#[trigger] open_name_spec(master, rows[i]@) matches Some(b)
            && valid_utf8(b))
}

/// What a listing returns for SQLite's answer `a`: the names of the rows,
/// sorted, if every row opens; a decryption error if one does not.
pub open spec fn list_answer(
    master: Seq<u8>,
    a: Result<Vec<Vec<u8>>, rusqlite::Error>,
    r: Result<Vec<String>, StorageError>,
) -> bool {
    match a {
        Err(e) => r matches Err(StorageError::Db(x)) && x == e,
        Ok(rows) => if rows_readable(master, rows@) {
            r matches Ok(out) && exists|names: Seq<String>|
                names_of_rows(master, rows@, names) && #[trigger] out@.to_multiset()
                    == names.to_multiset()
        } else {
            r matches Err(StorageError::Decryption)
        },
    }
}

/// The read of `key` a call made, and what the read returned for SQLite's
/// answer: [`SELECT_ROW`] with the key's lookup key.
pub open spec fn read_of(master: Seq<u8>, key: Seq<u8>, call: DbCall, r: Result<Vec<u8>, StorageError>) -> bool {
    call matches DbCall::Select { sql, key: k, answer } && sql == SELECT_ROW@ && k == storage_key_spec(
        master,
        key,
    ) && select_answer(master, key, answer, r)
}

/// The deletion of `key` a call made, and what the deletion returned for
/// SQLite's answer: [`DELETE_ROW`] with the key's lookup key.
pub open spec fn deletion_of(master: Seq<u8>, key: Seq<u8>, call: DbCall, r: Result<(), StorageError>) -> bool {
    call matches DbCall::Delete { sql, key: k, .. } && sql == DELETE_ROW@ && k == storage_key_spec(
        master,
        key,
    ) && delete_answer(call, r)
}

/// The listing of the namespace of `prefix` a call made, and what the
/// listing returned for SQLite's answer: [`SELECT_NAMESPACE`] with the
/// prefix's hash, which is as long as a namespace hash.
pub open spec fn listing_of(
    master: Seq<u8>,
    prefix: Seq<u8>,
    call: DbCall,
    r: Result<Vec<String>, StorageError>,
) -> bool {
    call matches DbCall::List { sql, n, namespace, answer } && sql == SELECT_NAMESPACE@ && n == 32
        && namespace == name_hash_spec(master, prefix) && list_answer(master, answer, r)
}

/// Seals `value` for `key` and writes the row. A value too long to seal is a
/// decryption error and nothing is written.
fn put_row(
    conn: &rusqlite::Connection,
    keys: &KeyMaterial,
    calls: &mut Ghost<Seq<DbCall>>,
    key: &str,
    value: &[u8],
) -> (r: Result<(), StorageError>)
    requires
        key.spec_bytes().len() <= aead_max_plaintext(),
    ensures
        value@.len() > aead_max_plaintext() ==> (r matches Err(StorageError::Decryption)) && final(calls)@ == old(calls)@,
        value@.len() <= aead_max_plaintext() ==> one_more(old(calls)@, final(calls)@) && upsert_of(
            keys@,
            key.spec_bytes(),
            value@,
            final(calls)@.last(),
        ) && upsert_answer(final(calls)@.last(), r),
        r matches Err(e) ==> e is Db || (e is Decryption && value@.len() > aead_max_plaintext()),
{
    let ct = keys.encrypt(key, value)?;
    let sk = keys.storage_key(key);
    let ek = keys.encrypt_key_name(key);
    let params = [sk.as_slice(), ek.as_slice(), ct.as_slice()];
    let sql: &str = UPSERT_ROW;
    let answer = db_execute(conn, sql, params.as_slice());
    proof {
        let call = DbCall::Upsert { sql: sql@, key: sk@, name: ek@, value: ct@, answer };
        lemma_one_more(calls@, call);
        calls@ = calls@.push(call);
    }
    match answer {
        Ok(_) => Ok(()),
        Err(e) => Err(StorageError::Db(e)),
    }
}

/// Reads and opens the value of `key`.
fn get_row(conn: &rusqlite::Connection, keys: &KeyMaterial, calls: &mut Ghost<Seq<DbCall>>, key: &str)
    -> (r: Result<Vec<u8>, StorageError>)
    ensures
        one_more(old(calls)@, final(calls)@),
        read_of(keys@, key.spec_bytes(), final(calls)@.last(), r),
        r matches Ok(v) ==> stored_value(keys@, key.spec_bytes(), v@),
{
    let sk = keys.storage_key(key);
    let sql: &str = SELECT_ROW;
    let answer = db_query_blob(conn, sql, sk.as_slice());
    proof {
        let call = DbCall::Select { sql: sql@, key: sk@, answer };
        lemma_one_more(calls@, call);
        calls@ = calls@.push(call);
    }
    match answer {
        Err(e) => Err(StorageError::Db(e)),
        Ok(None) => Err(StorageError::NotFound),
        Ok(Some(row)) => keys.decrypt(key, row.as_slice()),
    }
}

/// Deletes the row of `key`; deleting a missing key is not an error.
fn delete_row(
    conn: &rusqlite::Connection,
    keys: &KeyMaterial,
    calls: &mut Ghost<Seq<DbCall>>,
    key: &str,
) -> (r: Result<(), StorageError>)
    ensures
        one_more(old(calls)@, final(calls)@),
        deletion_of(keys@, key.spec_bytes(), final(calls)@.last(), r),
        r matches Err(e) ==> e is Db,
{
    let sk = keys.storage_key(key);
    let params = [sk.as_slice()];
    let sql: &str = DELETE_ROW;
    let answer = db_execute(conn, sql, params.as_slice());
    proof {
        let call = DbCall::Delete { sql: sql@, key: sk@, answer };
        lemma_one_more(calls@, call);
        calls@ = calls@.push(call);
    }
    match answer {
        Ok(_) => Ok(()),
        Err(e) => Err(StorageError::Db(e)),
    }
}

/// `new` is `old` with one more entry.
pub open spec fn one_more<A>(old: Seq<A>, new: Seq<A>) -> bool {
    new.len() == old.len() + 1 && new.drop_last() == old
}

/// A sequence with one entry pushed has one entry more, the last one.
pub proof fn lemma_one_more<A>(s: Seq<A>, x: A)
    ensures
        one_more(s, s.push(x)),
        s.push(x).last() == x,
{
    assert(s.push(x).drop_last() =~= s);
}

// ── Key-name order ────────────────────────────────────────────────────────────

/// `v` is what some value blob stored for `key` under `master` opens to.
pub open spec fn stored_value(master: Seq<u8>, key: Seq<u8>, v: Seq<u8>) -> bool {
    exists|blob: Seq<u8>| #[trigger] open_value_spec(master, key, blob) == Some(v)
}

/// `name` is what some sealed name stored under `master` opens to.
pub open spec fn stored_name(master: Seq<u8>, name: Seq<char>) -> bool {
    exists|blob: Seq<u8>| #[trigger] open_name_spec(master, blob) == Some(encode_utf8(name))
}

/// Byte-wise lexicographic order, the order of `str`.
pub open spec fn bytes_le(a: Seq<u8>, b: Seq<u8>) -> bool
    decreases a.len(),
{
    if a.len() == 0 {
        true
    } else if b.len() == 0 {
        false
    } else if a[0] != b[0] {
        a[0] < b[0]
    } else {
        bytes_le(a.drop_first(), b.drop_first())
    }
}

proof fn lemma_bytes_le_total(a: Seq<u8>, b: Seq<u8>)
    ensures
        bytes_le(a, b) || bytes_le(b, a),
    decreases a.len(),
{
    if a.len() > 0 && b.len() > 0 && a[0] == b[0] {
        lemma_bytes_le_total(a.drop_first(), b.drop_first());
    }
}

/// The order of two key names: that of their UTF-8 bytes.
pub open spec fn name_le(a: Seq<char>, b: Seq<char>) -> bool {
    bytes_le(encode_utf8(a), encode_utf8(b))
}

/// Each name is at most the next.
pub open spec fn names_sorted(s: Seq<String>) -> bool {
    forall|i: int| 0 <= i < s.len() - 1 ==> #[trigger] name_le(s[i]@, s[i + 1]@)
}

fn bytes_le_exec(a: &[u8], b: &[u8]) -> (r: bool)
    ensures
        r == bytes_le(a@, b@),
{
    let mut i: usize = 0;
    assert(a@.subrange(0, a@.len() as int) =~= a@);
    assert(b@.subrange(0, b@.len() as int) =~= b@);
    while i < a.len()
        invariant
            i <= a@.len(),
            i <= b@.len(),
            bytes_le(a@, b@) == bytes_le(a@.subrange(i as int, a@.len() as int), b@.subrange(i as int, b@.len() as int)),
        decreases a@.len() - i,
    {
        if i >= b.len() {
            return false;
        }
        if a[i] != b[i] {
            return a[i] < b[i];
        }
        proof {
            let (sa, sb) = (a@.subrange(i as int, a@.len() as int), b@.subrange(i as int, b@.len() as int));
            assert(sa.drop_first() =~= a@.subrange(i + 1, a@.len() as int));
            assert(sb.drop_first() =~= b@.subrange(i + 1, b@.len() as int));
        }
        i = i + 1;
    }
    true
}

fn name_le_exec(a: &String, b: &String) -> (r: bool)
    ensures
        r == name_le(a@, b@),
{
    bytes_le_exec(a.as_str().as_bytes(), b.as_str().as_bytes())
}

/// Sorts key names by their bytes, keeping every name.
pub fn sort_names(v: Vec<String>) -> (out: Vec<String>)
    ensures
        names_sorted(out@),
        out@.to_multiset() == v@.to_multiset(),
{
    broadcast use vstd::seq_lib::group_to_multiset_ensures;

    let mut rest = v;
    let mut out: Vec<String> = Vec::new();
    while rest.len() > 0
        invariant
            names_sorted(out@),
            out@.to_multiset().add(rest@.to_multiset()) == v@.to_multiset(),
        decreases rest@.len(),
    {
        let ghost before = rest@;
        let x = rest.pop().unwrap();
        assert(before =~= rest@.push(x));
        let mut p: usize = 0;
        while p < out.len() && !name_le_exec(&x, &out[p])
            invariant
                p <= out@.len(),
                forall|j: int| 0 <= j < p ==> !name_le(x@, #[trigger] out@[j]@),
            decreases out@.len() - p,
        {
            p = p + 1;
        }
        let ghost old_out = out@;
        proof {
            if p > 0 {
                lemma_bytes_le_total(encode_utf8(x@), encode_utf8(old_out[p - 1]@));
                assert(!name_le(x@, old_out[p - 1]@));
            }
        }
        out.insert(p, x);
        proof {
            vstd::seq_lib::to_multiset_insert(old_out, p as int, x);
            assert(out@.to_multiset() =~= old_out.to_multiset().insert(x));
            vstd::seq_lib::to_multiset_build(rest@, x);
            assert(before.to_multiset() =~= rest@.to_multiset().insert(x));
            assert(out@.to_multiset().add(rest@.to_multiset()) =~= old_out.to_multiset().add(
                before.to_multiset(),
            ));
            assert forall|i: int| 0 <= i < out@.len() - 1 implies #[trigger] name_le(
                out@[i]@,
                out@[i + 1]@,
            ) by {
                if i < p - 1 {
                    assert(out@[i] == old_out[i] && out@[i + 1] == old_out[i + 1]);
                    assert(name_le(old_out[i]@, old_out[i + 1]@));
                } else if i == p - 1 {
                    assert(out@[i] == old_out[i] && out@[i + 1] == x);
                } else if i == p {
                    assert(out@[i] == x && out@[i + 1] == old_out[i]);
                } else {
                    let k = i - 1;
                    assert(out@[i] == old_out[k] && out@[i + 1] == old_out[k + 1]);
                    assert(name_le(old_out[k]@, old_out[k + 1]@));
                }
            }
        }
    }
    proof {
        assert(rest@ =~= Seq::<String>::empty());
        assert(rest@.to_multiset() =~= vstd::multiset::Multiset::empty());
    }
    out
}

// ── The store ─────────────────────────────────────────────────────────────────

/// An encrypted key-value store over one SQLite connection.
pub struct EncryptedStore {
    conn: rusqlite::Connection,
    keys: KeyMaterial,
    calls: Ghost<Seq<DbCall>>,
}

impl View for EncryptedStore {
    type V = Seq<u8>;

    /// The master key.
    closed spec fn view(&self) -> Seq<u8> {
        self.keys@
    }
}

/// A multi-record transaction from [`EncryptedStore::transaction`]. Records
/// are sealed exactly as [`EncryptedStore::put`] seals them. Nothing written
/// through it is visible to another connection before
/// [`commit`](Self::commit); reads through it see its own writes. Dropping it
/// without committing rolls every write back.
pub struct StoreTransaction<'a> {
    tx: rusqlite::Transaction<'a>,
    keys: &'a KeyMaterial,
    puts: Ghost<Seq<(Seq<u8>, Seq<u8>)>>,
    calls: Ghost<Seq<DbCall>>,
}

impl<'a> View for StoreTransaction<'a> {
    type V = Seq<u8>;

    /// The master key.
    closed spec fn view(&self) -> Seq<u8> {
        self.keys@
    }
}

impl EncryptedStore {
    /// Opens the database file at `path`, creating it and its table if
    /// needed.
    pub fn open(path: &str, master_key: [u8; 32]) -> (r: Result<Self, StorageError>)
        ensures
            r matches Ok(s) ==> s@ == master_key@,
            r matches Err(e) ==> e is Db,
    {
        match db_open(path) {
            Ok(conn) => Self::init(conn, master_key),
            Err(e) => Err(StorageError::Db(e)),
        }
    }

    /// Opens a private in-memory database.
    pub fn open_in_memory(master_key: [u8; 32]) -> (r: Result<Self, StorageError>)
        ensures
            r matches Ok(s) ==> s@ == master_key@,
            r matches Err(e) ==> e is Db,
    {
        match db_open_in_memory() {
            Ok(conn) => Self::init(conn, master_key),
            Err(e) => Err(StorageError::Db(e)),
        }
    }

    /// The SQLite connection the store runs on.
    pub closed spec fn connection(&self) -> rusqlite::Connection {
        self.conn
    }

    /// The underlying SQLite connection.
    pub fn conn(&self) -> (c: &rusqlite::Connection)
        ensures
            *c == self.connection(),
    {
        &self.conn
    }

    /// The lookup key a record named `key` is stored under.
    pub fn storage_key(&self, key: &str) -> (sk: Vec<u8>)
        ensures
            sk@ == storage_key_spec(self@, key.spec_bytes()),
            sk@.len() == 64,
    {
        self.keys.storage_key(key)
    }

    fn init(conn: rusqlite::Connection, master_key: [u8; 32]) -> (r: Result<Self, StorageError>)
        ensures
            r matches Ok(s) ==> s@ == master_key@,
            r matches Err(e) ==> e is Db,
    {
        match db_execute_batch(&conn, SCHEMA) {
            Ok(()) => Ok(EncryptedStore { conn, keys: KeyMaterial::new(master_key), calls: Ghost(Seq::empty()) }),
            Err(e) => Err(StorageError::Db(e)),
        }
    }

    /// Every statement this store ran for [`put`](Self::put),
    /// [`get`](Self::get), [`delete`](Self::delete) and
    /// [`list_keys_with_prefix`](Self::list_keys_with_prefix), oldest first,
    /// with SQLite's answers.
    pub closed spec fn calls(&self) -> Seq<DbCall> {
        self.calls@
    }

    /// Inserts `key`, or replaces its value. A value too long to seal is
    /// refused as a decryption error and nothing is written.
    pub fn put(&mut self, key: &str, value: &[u8]) -> (r: Result<(), StorageError>)
        requires
            key.spec_bytes().len() <= aead_max_plaintext(),
        ensures
            final(self)@ == old(self)@,
            value@.len() > aead_max_plaintext() ==> (r matches Err(StorageError::Decryption))
                && final(self).calls() == old(self).calls(),
            value@.len() <= aead_max_plaintext() ==> one_more(old(self).calls(), final(self).calls())
                && upsert_of(old(self)@, key.spec_bytes(), value@, final(self).calls().last())
                && upsert_answer(final(self).calls().last(), r),
            r matches Err(e) ==> e is Db || (e is Decryption && value@.len() > aead_max_plaintext()),
    {
        put_row(&self.conn, &self.keys, &mut self.calls, key, value)
    }

    /// The value of `key`: `NotFound` when there is no row under its lookup
    /// key, `Decryption` when the stored value does not authenticate under
    /// this key name.
    pub fn get(&mut self, key: &str) -> (r: Result<Vec<u8>, StorageError>)
        ensures
            final(self)@ == old(self)@,
            one_more(old(self).calls(), final(self).calls()),
            read_of(old(self)@, key.spec_bytes(), final(self).calls().last(), r),
            r matches Ok(v) ==> stored_value(old(self)@, key.spec_bytes(), v@),
    {
        get_row(&self.conn, &self.keys, &mut self.calls, key)
    }

    /// Deletes `key`; deleting a missing key is not an error.
    pub fn delete(&mut self, key: &str) -> (r: Result<(), StorageError>)
        ensures
            final(self)@ == old(self)@,
            one_more(old(self).calls(), final(self).calls()),
            deletion_of(old(self)@, key.spec_bytes(), final(self).calls().last(), r),
            r matches Err(e) ==> e is Db,
    {
        delete_row(&self.conn, &self.keys, &mut self.calls, key)
    }

    /// Begins a transaction over several records (`BEGIN IMMEDIATE`: the
    /// write lock is taken at once, so a started transaction never dies half
    /// way over a lock another connection holds). While it is open nothing
    /// else can write through this store.
    pub fn transaction(&mut self) -> (r: Result<StoreTransaction<'_>, StorageError>)
        ensures
            r matches Ok(tx) ==> tx@ == old(self)@ && tx.puts() == Seq::<(Seq<u8>, Seq<u8>)>::empty()
                && tx.calls() == Seq::<DbCall>::empty(),
            final(self)@ == old(self)@,
            final(self).calls() == old(self).calls(),
            r matches Err(e) ==> e is Db,
    {
        let keys = &self.keys;
        match db_begin_immediate(&mut self.conn) {
            Ok(tx) => Ok(
                StoreTransaction { tx, keys, puts: Ghost(Seq::empty()), calls: Ghost(Seq::empty()) },
            ),
            Err(e) => Err(StorageError::Db(e)),
        }
    }

    /// The real key names in the namespace of `prefix`, sorted by their
    /// bytes. Names are stored hashed, so only a `prefix` that is a whole
    /// namespace (up to and including its first `:`, or a whole name without
    /// one) can match.
    pub fn list_keys_with_prefix(&mut self, prefix: &str) -> (r: Result<Vec<String>, StorageError>)
        ensures
            final(self)@ == old(self)@,
            one_more(old(self).calls(), final(self).calls()),
            listing_of(old(self)@, prefix.spec_bytes(), final(self).calls().last(), r),
            r matches Ok(keys) ==> names_sorted(keys@),
            r matches Ok(keys) ==> forall|i: int|
                0 <= i < keys@.len() ==> #[trigger] stored_name(old(self)@, keys@[i]@),
            r matches Err(e) ==> e is Db || e is Decryption,
    {
        let ns_hash = self.keys.key_name_hash(prefix.as_bytes());
        let sql: &str = SELECT_NAMESPACE;
        let n: i64 = 32;
        let answer = db_query_blobs(&self.conn, sql, n, ns_hash.as_slice());
        proof {
            let call = DbCall::List { sql: sql@, n, namespace: ns_hash@, answer };
            lemma_one_more(self.calls@, call);
            self.calls@ = self.calls@.push(call);
        }
        let rows = match answer {
            Ok(rows) => rows,
            Err(e) => {
                return Err(StorageError::Db(e));
            },
        };
        let ghost calls = self.calls@;
        let mut names: Vec<String> = Vec::new();
        let mut i: usize = 0;
        while i < rows.len()
            invariant
                i <= rows@.len(),
                names@.len() == i,
                self@ == old(self)@,
                self.calls@ == calls,
                one_more(old(self).calls@, calls),
                calls.last() == (DbCall::List { sql: SELECT_NAMESPACE@, n: 32, namespace: ns_hash@, answer: Ok::<Vec<Vec<u8>>, rusqlite::Error>(rows) }),
                ns_hash@ == name_hash_spec(old(self)@, prefix.spec_bytes()),
                forall|j: int| 0 <= j < i ==> #[trigger] stored_name(self@, names@[j]@),
                names_of_rows(self@, rows@.subrange(0, i as int), names@),
                rows_readable(self@, rows@.subrange(0, i as int)),
            decreases rows@.len() - i,
        {
            let name = match self.keys.decrypt_key_name(rows[i].as_slice()) {
                Ok(n) => n,
                Err(e) => {
                    proof {
                        assert(!(open_name_spec(self@, rows@[i as int]@) matches Some(b) && valid_utf8(b)));
                        assert(!rows_readable(self@, rows@));
                    }
                    return Err(e);
                },
            };
            proof {
                let b = open_name_spec(self@, rows@[i as int]@)->Some_0;
                vstd::utf8::decode_utf8_encode_utf8(b);
                assert(open_name_spec(self@, rows@[i as int]@) == Some(encode_utf8(name@)));
                assert(stored_name(self@, name@));
            }
            let ghost before = names@;
            names.push(name);
            proof {
                let sub = rows@.subrange(0, i + 1);
                assert(sub.subrange(0, i as int) =~= rows@.subrange(0, i as int));
                assert forall|j: int| 0 <= j < sub.len() implies #[trigger] open_name_spec(self@, sub[j]@) == Some(
                    encode_utf8(names@[j]@),
                ) by {
                    if j < i {
                        assert(sub[j] == rows@.subrange(0, i as int)[j]);
                    }
                }
                assert forall|j: int| 0 <= j < sub.len() implies (#[trigger] open_name_spec(self@, sub[j]@) matches Some(b)
                    && valid_utf8(b)) by {
                    if j < i {
                        assert(sub[j] == rows@.subrange(0, i as int)[j]);
                    }
                }
            }
            i = i + 1;
        }
        proof {
            assert(rows@.subrange(0, rows@.len() as int) =~= rows@);
        }
        let sorted = sort_names(names);
        proof {
            assert forall|j: int| 0 <= j < sorted@.len() implies #[trigger] stored_name(
                self@,
                sorted@[j]@,
            ) by {
                vstd::seq_lib::to_multiset_contains(sorted@, sorted@[j]);
                vstd::seq_lib::to_multiset_contains(names@, sorted@[j]);
                let k = choose|k: int| 0 <= k < names@.len() && names@[k] == sorted@[j];
                assert(stored_name(self@, names@[k]@));
            }
        }
        Ok(sorted)
    }
}

impl<'a> StoreTransaction<'a> {
    /// The records put through this transaction so far, in order: the bytes
    /// of each key name with the value sealed and handed to the store for it.
    pub closed spec fn puts(&self) -> Seq<(Seq<u8>, Seq<u8>)> {
        self.puts@
    }

    /// Every statement this transaction ran for [`put`](Self::put),
    /// [`get`](Self::get) and [`delete`](Self::delete), oldest first, with
    /// SQLite's answers.
    pub closed spec fn calls(&self) -> Seq<DbCall> {
        self.calls@
    }

    /// Inserts `key`, or replaces its value, within the transaction.
    pub fn put(&mut self, key: &str, value: &[u8]) -> (r: Result<(), StorageError>)
        requires
            key.spec_bytes().len() <= aead_max_plaintext(),
        ensures
            final(self)@ == old(self)@,
            value@.len() > aead_max_plaintext() ==> (r matches Err(StorageError::Decryption))
                && final(self).calls() == old(self).calls(),
            value@.len() <= aead_max_plaintext() ==> one_more(old(self).calls(), final(self).calls())
                && upsert_of(old(self)@, key.spec_bytes(), value@, final(self).calls().last())
                && upsert_answer(final(self).calls().last(), r),
            r matches Err(e) ==> e is Db || (e is Decryption && value@.len() > aead_max_plaintext()),
            r is Ok ==> final(self).puts() == old(self).puts().push((key.spec_bytes(), value@)),
            r is Err ==> final(self).puts() == old(self).puts(),
    {
        let r = put_row(tx_connection(&self.tx), self.keys, &mut self.calls, key, value);
        if r.is_ok() {
            proof {
                self.puts@ = self.puts@.push((key.spec_bytes(), value@));
            }
        }
        r
    }

    /// Reads `key` as this transaction sees it, its own writes included.
    pub fn get(&mut self, key: &str) -> (r: Result<Vec<u8>, StorageError>)
        ensures
            final(self)@ == old(self)@,
            final(self).puts() == old(self).puts(),
            one_more(old(self).calls(), final(self).calls()),
            read_of(old(self)@, key.spec_bytes(), final(self).calls().last(), r),
            r matches Ok(v) ==> stored_value(old(self)@, key.spec_bytes(), v@),
    {
        get_row(tx_connection(&self.tx), self.keys, &mut self.calls, key)
    }

    /// Deletes `key` within the transaction.
    pub fn delete(&mut self, key: &str) -> (r: Result<(), StorageError>)
        ensures
            final(self)@ == old(self)@,
            final(self).puts() == old(self).puts(),
            one_more(old(self).calls(), final(self).calls()),
            deletion_of(old(self)@, key.spec_bytes(), final(self).calls().last(), r),
            r matches Err(e) ==> e is Db,
    {
        delete_row(tx_connection(&self.tx), self.keys, &mut self.calls, key)
    }

    /// Makes every write of the transaction durable at once. An error from
    /// the commit itself leaves it rolled back.
    pub fn commit(self) -> (r: Result<(), StorageError>)
        ensures
            r matches Err(e) ==> e is Db,
    {
        match tx_commit(self.tx) {
            Ok(()) => Ok(()),
            Err(e) => Err(StorageError::Db(e)),
        }
    }

    /// Discards every write of the transaction, reporting an error rather
    /// than swallowing it as dropping would.
    pub fn rollback(self) -> (r: Result<(), StorageError>)
        ensures
            r matches Err(e) ==> e is Db,
    {
        match tx_rollback(self.tx) {
            Ok(()) => Ok(()),
            Err(e) => Err(StorageError::Db(e)),
        }
    }
}


// ── What SQLite does with the statements ──────────────────────────────────────

/// Table `kv` by lookup key: each row's sealed key name and sealed value
/// (`k` is the primary key, so a lookup key holds at most one row).
pub type KvTable = Map<Seq<u8>, (Seq<u8>, Seq<u8>)>;

/// Whether `substr(k, 1, n) = param` holds of a blob `k`: its first `n`
/// bytes, or all of it when it is shorter, are `param`.
pub open spec fn substr_matches(k: Seq<u8>, n: int, param: Seq<u8>) -> bool {
    (if k.len() >= n {
        k.subrange(0, n)
    } else {
        k
    }) == param
}

/// Whether table `t1` is what running the statement of `call` leaves of
/// table `t0`, as SQL defines the statements this store runs. A statement
/// that fails changes nothing; of any other text nothing is said.
pub open spec fn applied(t0: KvTable, call: DbCall, t1: KvTable) -> bool {
    match call {
        DbCall::Upsert { sql, key, name, value, answer } => sql
            == "INSERT INTO kv (k, ek, v) VALUES (?1, ?2, ?3)\nON CONFLICT(k) DO UPDATE SET v = excluded.v"@
            ==> match answer {
            Ok(_) => t1 == t0.insert(
                key,
                if t0.contains_key(key) {
                    (t0[key].0, value)
                } else {
                    (name, value)
                },
            ),
            Err(_) => t1 == t0,
        },
        DbCall::Delete { sql, key, answer } => sql == "DELETE FROM kv WHERE k = ?1"@ ==> match answer {
            Ok(_) => t1 == t0.remove(key),
            Err(_) => t1 == t0,
        },
        DbCall::Select { sql, .. } => sql == "SELECT v FROM kv WHERE k = ?1"@ ==> t1 == t0,
        DbCall::List { sql, .. } => sql == "SELECT ek FROM kv WHERE substr(k, 1, ?1) = ?2 ORDER BY k"@
            ==> t1 == t0,
    }
}

/// Whether the answer recorded in `call` is what SQLite, running without
/// error, answers to its statement on table `t`, as SQL defines the reads
/// this store runs: the value of the row under the lookup key, if there is
/// one; rows that hold the sealed name of every row whose lookup key begins
/// with the namespace hash. Of any other text nothing is said.
pub open spec fn answered_from(t: KvTable, call: DbCall) -> bool {
    match call {
        DbCall::Select { sql, key, answer } => sql == "SELECT v FROM kv WHERE k = ?1"@ ==> match answer {
            Ok(None) => !t.contains_key(key),
            Ok(Some(b)) => t.contains_key(key) && b@ == t[key].1,
            Err(_) => false,
        },
        DbCall::List { sql, n, namespace, answer } => (sql
            == "SELECT ek FROM kv WHERE substr(k, 1, ?1) = ?2 ORDER BY k"@ && n >= 0) ==> match answer {
            Ok(rows) => forall|k: Seq<u8>|
                #[trigger] t.contains_key(k) && substr_matches(k, n as int, namespace) ==> exists|i: int|
                    0 <= i < rows.len() && rows@[i]@ == t[k].0,
            Err(_) => false,
        },
        _ => true,
    }
}

/// A deleted record is gone: once a deletion of `key` has succeeded, a read
/// of `key` from the table the deletion left answers `NotFound`.
pub proof fn lemma_get_after_delete(
    master: Seq<u8>,
    key: Seq<u8>,
    t0: KvTable,
    del: DbCall,
    deleted: Result<(), StorageError>,
    t1: KvTable,
    sel: DbCall,
    got: Result<Vec<u8>, StorageError>,
)
    requires
        deletion_of(master, key, del, deleted),
        deleted is Ok,
        applied(t0, del, t1),
        read_of(master, key, sel, got),
        answered_from(t1, sel),
    ensures
        got matches Err(StorageError::NotFound),
{
}

/// A listing is complete: when it succeeds, the sealed name of every row
/// whose lookup key begins with the hash of `prefix` opens to one of the
/// names it returns.
pub proof fn lemma_listing_complete(
    master: Seq<u8>,
    prefix: Seq<u8>,
    t: KvTable,
    call: DbCall,
    listed: Result<Vec<String>, StorageError>,
)
    requires
        listing_of(master, prefix, call, listed),
        answered_from(t, call),
        listed is Ok,
    ensures
        forall|k: Seq<u8>|
            #[trigger] t.contains_key(k) && k.len() >= 32 && k.subrange(0, 32) == name_hash_spec(
                master,
                prefix,
            ) ==> exists|i: int|
                0 <= i < listed->Ok_0@.len() && open_name_spec(master, t[k].0) == Some(
                    encode_utf8(listed->Ok_0@[i]@),
                ),
{
    let rows = call->List_answer->Ok_0;
    let out = listed->Ok_0@;
    let names = choose|names: Seq<String>|
        names_of_rows(master, rows@, names) && #[trigger] out.to_multiset() == names.to_multiset();
    assert forall|k: Seq<u8>|
        #[trigger] t.contains_key(k) && k.len() >= 32 && k.subrange(0, 32) == name_hash_spec(
            master,
            prefix,
        ) implies exists|i: int|
        0 <= i < out.len() && open_name_spec(master, t[k].0) == Some(encode_utf8(out[i]@)) by {
        assert(substr_matches(k, 32, name_hash_spec(master, prefix)));
        let i = choose|i: int| 0 <= i < rows.len() && rows@[i]@ == t[k].0;
        assert(open_name_spec(master, rows@[i]@) == Some(encode_utf8(names[i]@)));
        vstd::seq_lib::to_multiset_contains(names, names[i]);
        vstd::seq_lib::to_multiset_contains(out, names[i]);
        let j = choose|j: int| 0 <= j < out.len() && out[j] == names[i];
        assert(open_name_spec(master, t[k].0) == Some(encode_utf8(out[j]@)));
    }
}


/// The record named `name` stands in row `k` of table `t` as the store
/// writes it: the row's lookup key is the name's, it begins with the hash of
/// the namespace `ns`, and the row's sealed name opens to the name.
pub open spec fn record_row(master: Seq<u8>, t: KvTable, k: Seq<u8>, ns: Seq<u8>, name: Seq<char>) -> bool {
    &&& t.contains_key(k)
    &&& k == storage_key_spec(master, encode_utf8(name))
    &&& k.len() >= 32
    &&& k.subrange(0, 32) == name_hash_spec(master, ns)
    &&& open_name_spec(master, t[k].0) == Some(encode_utf8(name))
}

} // verus!
