//! Kademlia DHT: node identities, the bucket-splitting routing table and the DHT packet.
pub mod error;
pub mod node;
pub mod order;
pub mod packet;
pub mod routing;
pub mod wire;
