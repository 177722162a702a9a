//! Transports: which one carries a packet to a peer, the stream framing
//! of the Tor transport, and LAN discovery announcements.
pub mod error;
pub mod lan;
pub mod tcp;
pub mod transport;
