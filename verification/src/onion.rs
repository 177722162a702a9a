//! Three-hop onion routing: layered encryption of a payload along a path of
//! nodes, peeling one layer per hop, and rotating announce keys.
pub mod announce;
pub mod error;
pub mod forward;
pub mod packet;
pub mod path;
pub mod wire;
