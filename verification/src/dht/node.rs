use vstd::prelude::*;
use crate::clock::unix_millis;

verus! {

/// A node's public key in the DHT (X25519).
#[derive(Debug, Clone, Copy, Hash)]
pub struct DhtPublicKey(pub [u8; 32]);

/// Byte-wise equality of two 32-byte strings.
pub fn bytes32_eq(a: &[u8; 32], b: &[u8; 32]) -> (eq: bool)
    ensures
        eq == (a@ == b@),
{
    let mut i: usize = 0;
    while i < 32
        invariant
            i <= 32,
            a@.len() == 32,
            b@.len() == 32,
            forall|j: int| 0 <= j < i ==> a@[j] == b@[j],
        decreases 32 - i,
    {
        if a[i] != b[i] {
            return false;
        }
        i = i + 1;
    }
    assert(a@ =~= b@);
    true
}

impl PartialEq for DhtPublicKey {
    fn eq(&self, other: &Self) -> (eq: bool) {
        bytes32_eq(&self.0, &other.0)
    }
}

impl vstd::std_specs::cmp::PartialEqSpecImpl for DhtPublicKey {
    open spec fn obeys_eq_spec() -> bool {
        true
    }

    open spec fn eq_spec(&self, other: &Self) -> bool {
        self.0@ == other.0@
    }
}

impl Eq for DhtPublicKey {
}

/// An IP address: four octets, or eight 16-bit segments.
#[derive(Debug, Clone, Copy, PartialEq, Eq, Hash)]
pub enum IpAddress {
    V4([u8; 4]),
    V6([u16; 8]),
}

/// A transport address: an IP address and a UDP/TCP port.
#[derive(Debug, Clone, Copy, PartialEq, Eq, Hash)]
pub struct SocketAddress {
    pub ip: IpAddress,
    pub port: u16,
}

/// The first three octets of an IPv4 address, or `None` for IPv6.
pub open spec fn subnet_of(addr: SocketAddress) -> Option<Seq<u8>> {
    match addr.ip {
        IpAddress::V4(o) => Some(o@.subrange(0, 3)),
        IpAddress::V6(_) => None,
    }
}

/// A peer as the routing table knows it.
#[derive(Debug, Clone, Copy)]
pub struct NodeInfo {
    pub dht_pk: DhtPublicKey,
    pub addr: SocketAddress,
    /// When the node was last heard from (milliseconds since the Unix epoch).
    pub last_seen: Option<u64>,
    /// -128 to 127; evicted if < -10
    pub reputation: i8,
    pub consecutive_failures: u8,
}

impl NodeInfo {
    /// A freshly seen node with neutral reputation.
    pub fn new(dht_pk: DhtPublicKey, addr: SocketAddress) -> (n: Self)
        ensures
            n.dht_pk == dht_pk,
            n.addr == addr,
            n.last_seen is Some,
            n.reputation == 0,
            n.consecutive_failures == 0,
    {
        NodeInfo { dht_pk, addr, last_seen: Some(unix_millis()), reputation: 0, consecutive_failures: 0 }
    }

    /// The node answered at time `now`: failures are forgiven and reputation
    /// rises by one, up to 127.
    pub fn mark_seen_at(&mut self, now: u64)
        ensures
            final(self).dht_pk == old(self).dht_pk,
            final(self).addr == old(self).addr,
            final(self).last_seen == Some(now),
            final(self).consecutive_failures == 0,
            final(self).reputation == if old(self).reputation < 127 { old(self).reputation + 1 } else { 127 },
    {
        self.last_seen = Some(now);
        self.consecutive_failures = 0;
        if self.reputation < 127 {
            self.reputation = self.reputation + 1;
        }
    }

    /// The node answered now.
    pub fn mark_seen(&mut self)
        ensures
            final(self).dht_pk == old(self).dht_pk,
            final(self).addr == old(self).addr,
            final(self).last_seen is Some,
            final(self).consecutive_failures == 0,
            final(self).reputation == if old(self).reputation < 127 { old(self).reputation + 1 } else { 127 },
    {
        let now = unix_millis();
        self.mark_seen_at(now);
    }

    /// The node failed to answer: the failure count rises by one and the
    /// reputation falls by five unless it is already at the floor.
    pub fn mark_failure(&mut self)
        requires
            old(self).consecutive_failures < 255,
            old(self).reputation == -128 || old(self).reputation >= -123,
        ensures
            final(self).dht_pk == old(self).dht_pk,
            final(self).addr == old(self).addr,
            final(self).last_seen == old(self).last_seen,
            final(self).consecutive_failures == old(self).consecutive_failures + 1,
            final(self).reputation == if old(self).reputation > -128 { old(self).reputation - 5 } else { -128 },
    {
        self.consecutive_failures = self.consecutive_failures + 1;
        if self.reputation > -128 {
            self.reputation = self.reputation - 5;
        }
    }

    /// The /24 subnet of an IPv4 node; `None` for IPv6 nodes.
    pub fn subnet_24(&self) -> (s: Option<[u8; 3]>)
        ensures
            match s {
                Some(a) => subnet_of(self.addr) == Some(a@),
                None => subnet_of(self.addr) is None,
            },
    {
        match self.addr.ip {
            IpAddress::V4(o) => {
                let a = [o[0], o[1], o[2]];
                assert(a@ =~= o@.subrange(0, 3));
                Some(a)
            },
            IpAddress::V6(_) => None,
        }
    }
}

/// A node's published entry points: the gateways through which it can be
/// reached, valid until `expiration` (seconds since the Unix epoch).
#[derive(Debug, Clone)]
pub struct LeaseSet {
    pub dht_pk: DhtPublicKey,
    pub gateways: Vec<NodeInfo>,
    pub expiration: u64,
}

} // verus!
