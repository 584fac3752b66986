[package]
name = "arcium_core"
version = "0.1.0"
edition = "2021"
publish = false

[dependencies]
chacha20poly1305 = "0.10"
hkdf = "0.12"
hmac = "0.12"
sha2 = "0.10"
indexmap = "2"
rand_core = { version = "0.6", features = ["getrandom"] }
x25519-dalek = { version = "2", features = ["static_secrets"] }
ed25519-dalek = "2"
ml-kem = "0.3"
zeroize = "1"
rusqlite = { version = "0.31", features = ["bundled"] }
thiserror = "1"
