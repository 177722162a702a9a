//! What a client application does with the node: Zero IDs and sending
//! messages to friends.
pub mod hexid;
pub mod client;
