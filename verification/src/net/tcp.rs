use vstd::prelude::*;
use crate::dht::node::SocketAddress;
use crate::net::error::NetError;

verus! {

/// Relays over TCP; no relay connection is kept yet.
pub struct TcpRelayManager {}

impl TcpRelayManager {
    /// A relay manager with no relay connection.
    pub fn new() -> (m: Self) {
        TcpRelayManager {}
    }

    /// Sends a packet through a relay: with no relay connection, the relay
    /// transport is unavailable.
    pub fn send_relayed_packet(&self, target: SocketAddress, packet: &[u8]) -> (r: Result<(), NetError>)
        ensures
            r matches Err(NetError::TransportUnavailable),
    {
        Err(NetError::TransportUnavailable)
    }
}

} // verus!
