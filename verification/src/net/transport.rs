use vstd::prelude::*;
use crate::dht::node::{IpAddress, NodeInfo, SocketAddress};

verus! {

/// The transports a packet can take.
#[derive(Debug, Clone, Copy, PartialEq, Eq)]
pub enum TransportType {
    Udp,
    Quic,
    TcpRelay(SocketAddress),
    Tor,
}

/// A loopback address: 127.0.0.0/8, or ::1.
pub open spec fn is_loopback(ip: IpAddress) -> bool {
    match ip {
        IpAddress::V4(o) => o[0] == 127,
        IpAddress::V6(s) => s[0] == 0 && s[1] == 0 && s[2] == 0 && s[3] == 0 && s[4] == 0 && s[5] == 0 && s[6] == 0 && s[7] == 1,
    }
}

/// Whether an address is a loopback address.
pub fn ip_is_loopback(ip: &IpAddress) -> (r: bool)
    ensures
        r == is_loopback(*ip),
{
    match ip {
        IpAddress::V4(o) => o[0] == 127,
        IpAddress::V6(s) => s[0] == 0 && s[1] == 0 && s[2] == 0 && s[3] == 0 && s[4] == 0 && s[5] == 0 && s[6] == 0 && s[7] == 1,
    }
}

/// The transport for a peer: UDP to a loopback address, else QUIC when
/// available, else a TCP relay when one is available, else plain UDP, the
/// transport every node has.
pub fn best_transport_for(target: &NodeInfo, quic_available: bool, relay_available: bool) -> (t: TransportType)
    ensures
        t == if is_loopback(target.addr.ip) {
            TransportType::Udp
        } else if quic_available {
            TransportType::Quic
        } else if relay_available {
            TransportType::TcpRelay(target.addr)
        } else {
            TransportType::Udp
        },
        !quic_available && !relay_available ==> t == TransportType::Udp,
{
    if ip_is_loopback(&target.addr.ip) {
        TransportType::Udp
    } else if quic_available {
        TransportType::Quic
    } else if relay_available {
        TransportType::TcpRelay(target.addr)
    } else {
        TransportType::Udp
    }
}

/// The four big-endian bytes of `n`.
pub open spec fn u32_be(n: u32) -> Seq<u8> {
    seq![(n / 0x100_0000) as u8, ((n / 0x1_0000) % 0x100) as u8, ((n / 0x100) % 0x100) as u8, (n % 0x100) as u8]
}

/// The bytes written to a Tor stream for a packet: its length, truncated
/// to 32 bits, in four big-endian bytes, then the packet.
pub open spec fn tor_frame_wire(packet: Seq<u8>) -> Seq<u8> {
    u32_be((packet.len() % 0x1_0000_0000) as u32) + packet
}

/// Frames a packet for a Tor stream.
pub fn tor_frame(packet: &[u8]) -> (out: Vec<u8>)
    ensures
        out@ == tor_frame_wire(packet@),
{
    let n: u32 = ((packet.len() as u64) % 0x1_0000_0000u64) as u32;
    let mut out: Vec<u8> = Vec::new();
    out.push((n / 0x100_0000) as u8);
    out.push(((n / 0x1_0000) % 0x100) as u8);
    out.push(((n / 0x100) % 0x100) as u8);
    out.push((n % 0x100) as u8);
    out.extend_from_slice(packet);
    assert(out@ =~= tor_frame_wire(packet@));
    out
}

} // verus!
