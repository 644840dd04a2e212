[package]
name = "tessera"
version = "0.1.0"
edition = "2021"
publish = false

[dependencies]
opaque-ke = { version = "=4.0.1", features = ["argon2"] }
sha2 = "=0.10.9"
rand = "=0.8.8"
zeroize = "=1.9.1"
hkdf = "=0.12.4"
chacha20poly1305 = "=0.10.1"
base64 = "=0.22.1"
serde = { version = "=1.0.229", features = ["derive"] }
serde_json = "=1.0.154"
thiserror = "=1.0.69"
