//! The cryptographic base layer: AEAD, key derivation, keypairs, the Noise
//! handshake, proof-of-work, mnemonic recovery and passphrase-sealed storage.
pub mod aead;
pub mod curve;
pub mod error;
pub mod hash;
pub mod kdf;
pub mod keypair;
pub mod pow;
pub mod noise;
pub mod recovery;
pub mod storage;
