use vstd::prelude::*;
use crate::clock::unix_millis;
use crate::crypto::keypair::StaticKeypair;
use crate::dht::node::NodeInfo;

verus! {

/// How long a tunnel is used before it is rebuilt, in seconds.
pub const TUNNEL_LIFETIME_SECS: u64 = 300;

/// Which way a tunnel carries traffic.
#[derive(Debug, Clone, Copy, PartialEq, Eq, Structural)]
pub enum TunnelDirection {
    Inbound,
    Outbound,
}

/// Represents a 3-hop unidirectional tunnel for onion routing.
pub struct OnionTunnel {
    pub direction: TunnelDirection,
    pub hop1: NodeInfo,
    pub hop2: NodeInfo,
    pub hop3: NodeInfo,
    /// Our ephemeral keys used to encrypt for each specific hop
    pub hop1_key: StaticKeypair,
    pub hop2_key: StaticKeypair,
    pub hop3_key: StaticKeypair,
    /// When the tunnel was built (milliseconds since the Unix epoch).
    pub created_at: u64,
}

impl OnionTunnel {
    /// The tunnel's ephemeral keypairs are well formed.
    pub open spec fn wf(&self) -> bool {
        &&& self.hop1_key.wf()
        &&& self.hop2_key.wf()
        &&& self.hop3_key.wf()
    }

    /// Builds a new onion tunnel from 3 selected nodes, with fresh
    /// ephemeral keys for each hop.
    pub fn new(direction: TunnelDirection, hop1: NodeInfo, hop2: NodeInfo, hop3: NodeInfo) -> (t: Self)
        ensures
            t.wf(),
            t.direction == direction,
            t.hop1 == hop1,
            t.hop2 == hop2,
            t.hop3 == hop3,
    {
        OnionTunnel {
            direction,
            hop1,
            hop2,
            hop3,
            hop1_key: StaticKeypair::generate(),
            hop2_key: StaticKeypair::generate(),
            hop3_key: StaticKeypair::generate(),
            created_at: unix_millis(),
        }
    }

    /// Whether the tunnel has outlived `TUNNEL_LIFETIME_SECS` whole seconds at
    /// time `now` (milliseconds).
    pub open spec fn expired_at(&self, now: u64) -> bool {
        now >= self.created_at && (now - self.created_at) / 1000 > TUNNEL_LIFETIME_SECS
    }

    /// Whether the tunnel is older than five minutes at time `now` (milliseconds).
    pub fn needs_rotation_at(&self, now: u64) -> (r: bool)
        ensures
            r == self.expired_at(now),
    {
        now >= self.created_at && (now - self.created_at) / 1000 > TUNNEL_LIFETIME_SECS
    }

    /// Whether the tunnel should be rotated now (every five minutes): the
    /// answer of `needs_rotation_at` at a reading of the clock.
    pub fn needs_rotation(&self) -> (r: bool)
        ensures
            exists|now: u64| r == #[trigger] self.expired_at(now),
    {
        let now = unix_millis();
        let r = self.needs_rotation_at(now);
        assert(r == self.expired_at(now));
        r
    }
}

} // verus!
