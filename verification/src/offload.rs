//! Offline message storage: sealed blobs that DHT nodes hold for absent
//! recipients, with proof-of-work, signatures and per-sender quotas.
pub mod blob;
pub mod client;
pub mod error;

pub mod store;
pub mod wire;
