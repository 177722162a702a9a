[package]
name = "zero-protocol"
version = "0.1.0"
edition = "2021"
publish = false

[dependencies]
argon2 = "0.5"
arrayvec = "0.7"
bincode = "1.3"
bip39 = "2"
blake2 = "0.10"
chacha20poly1305 = "0.10"
ed25519-dalek = "2"
hex = "0.4"
rand = "0.8"
serde = { version = "1", features = ["derive"] }
snow = "0.9"
subtle = "2"
x25519-dalek = { version = "2", features = ["static_secrets"] }
zeroize = "1"
tokio = { version = "1", features = ["full"] }
tokio-socks = "0.5"
quinn = "0.11"
rcgen = "0.12"
rustls = "0.23"
rustls-pki-types = "1"
igd = "0.12"
tracing = "0.1"
tracing-subscriber = "0.3"
thiserror = "1"
axum = "0.7"
uniffi = "0.28"
