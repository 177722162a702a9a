//! Zero Protocol: a decentralised, end-to-end encrypted messaging protocol.
//!
//! The protocol logic (packet framing, Kademlia routing, onion layering,
//! ratchets, reliable delivery, file transfer, group permissions and
//! offline storage) lives here with machine-checked contracts.
pub mod api;
pub mod net;
pub mod node;
pub mod wire;
pub mod offload;
pub mod push;
pub mod onion;
mod random;
pub mod btree_keys;
pub mod bytes;
pub mod crypto;
pub mod clock;
pub mod dht;
pub mod keymap;
pub mod session;
