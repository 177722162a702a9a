//! The client side of messaging: sessions with friends, the choice of
//! relays, and the onion packet that carries a message to a friend.
use vstd::prelude::*;
use crate::bytes::u64_le;
use crate::crypto::aead::{aead_len_ok, chacha20poly1305_seal};
use crate::crypto::curve::{x25519_diffie_hellman, x25519_shared_secret};
use crate::crypto::error::ZeroError;
use crate::crypto::keypair::StaticKeypair;
use crate::crypto::noise::{build_initiator, build_responder, noise_into_transport, noise_read_message, noise_write_message};
use crate::dht::node::{bytes32_eq, DhtPublicKey, NodeInfo};
use crate::dht::routing::{closest_ok, offered_in_turn, RoutingTable};
use crate::keymap::KeyMap;
use crate::node::handler::{frame, frames, NodeAction};
use crate::node::packet::{PacketType, MAX_FRAME_OVERHEAD};
use crate::onion::error::OnionError;
use crate::onion::packet::{onion_fits, onion_layer1, onion_layers_open, wrap_onion};
use crate::onion::path::{OnionTunnel, TunnelDirection};
use crate::session::friend::{counter_nonce, encode_friend_message, friend_message_wire, FriendSession};
use crate::session::ratchet::{message_key, next_chain_key};
use crate::wire::{bytes_wire, copy_range};

verus! {

/// How many nodes around a friend's key are considered as relays.
pub const RELAY_CANDIDATES: usize = 10;

/// The size of the buffers of the Noise handshake.
pub const NOISE_BUFFER_LEN: usize = 1024;

/// The nodes of `closest` that are neither us nor the friend, in order.
pub open spec fn relay_candidates(closest: Seq<NodeInfo>, us: Seq<u8>, target: Seq<u8>) -> Seq<NodeInfo> {
    closest.filter(|n: NodeInfo| n.dht_pk.0@ != us && n.dht_pk.0@ != target)
}

/// The three hops of a tunnel: the first three relays, `fallback` in the
/// places of missing ones.
pub open spec fn padded_hops(relays: Seq<NodeInfo>, fallback: NodeInfo) -> (NodeInfo, NodeInfo, NodeInfo) {
    let p = relays + seq![fallback, fallback, fallback];
    (p[0], p[1], p[2])
}

proof fn lemma_filter_take_step(s: Seq<NodeInfo>, pred: spec_fn(NodeInfo) -> bool, i: int)
    requires
        0 <= i < s.len(),
    ensures
        s.take(i + 1).filter(pred) == if pred(s[i]) { s.take(i).filter(pred).push(s[i]) } else { s.take(i).filter(pred) },
{
    reveal(Seq::filter);
    assert(s.take(i + 1).drop_last() =~= s.take(i));
    assert(s.take(i + 1).last() == s[i]);
}

/// Chooses the three hops of a tunnel to `target`: among the ten nodes
/// of `table` closest to it, those that are neither us nor it, in order of
/// distance; `fallback` takes the place of missing ones.
pub fn choose_hops(table: &RoutingTable, us: &DhtPublicKey, target: &DhtPublicKey, fallback: NodeInfo) -> (h: (NodeInfo, NodeInfo, NodeInfo))
    requires
        table.wf(),
    ensures
        exists|cs: Seq<NodeInfo>| #[trigger] closest_ok(table.table_nodes(), target.0@, RELAY_CANDIDATES as nat, cs)
            && h == padded_hops(relay_candidates(cs, us.0@, target.0@), fallback),
{
    let candidates = table.find_closest(target, RELAY_CANDIDATES);
    let ghost pred = |n: NodeInfo| n.dht_pk.0@ != us.0@ && n.dht_pk.0@ != target.0@;
    let mut relays: Vec<NodeInfo> = Vec::new();
    let mut i: usize = 0;
    while i < candidates.len()
        invariant
            i <= candidates@.len(),
            relays@ == candidates@.take(i as int).filter(pred),
            pred == (|n: NodeInfo| n.dht_pk.0@ != us.0@ && n.dht_pk.0@ != target.0@),
        decreases candidates@.len() - i,
    {
        proof {
            lemma_filter_take_step(candidates@, pred, i as int);
        }
        let c = candidates[i];
        if !bytes32_eq(&c.dht_pk.0, &us.0) && !bytes32_eq(&c.dht_pk.0, &target.0) {
            relays.push(c);
        }
        i = i + 1;
    }
    assert(candidates@.take(i as int) =~= candidates@);
    let ghost found = relays@;
    let mut k: usize = 0;
    while relays.len() < 3
        invariant
            relays@.len() <= found.len() + 3,
            relays@.len() >= found.len(),
            k == relays@.len() - found.len(),
            relays@ == found + seq![fallback, fallback, fallback].take(k as int),
        decreases 3 - relays@.len(),
    {
        relays.push(fallback);
        k = k + 1;
        assert(relays@ =~= found + seq![fallback, fallback, fallback].take(k as int));
    }
    let h = (relays[0], relays[1], relays[2]);
    proof {
        let p = found + seq![fallback, fallback, fallback];
        assert(relays@[0] == p[0] && relays@[1] == p[1] && relays@[2] == p[2]);
    }
    h
}

/// Establishes a session with `target`: runs both sides of a Noise IK
/// handshake locally with our keypair, keeps the initiator's transport
/// channel, and seeds the ratchet with the X25519 secret shared between our
/// key and the target's.
pub fn establish_session(keypair: &StaticKeypair, target: &DhtPublicKey) -> (r: Result<FriendSession, ZeroError>)
    ensures
        r matches Ok(s) ==> {
            &&& s.ratchet.root_key@ == x25519_shared_secret(keypair.private@, target.0@)
            &&& s.ratchet.send_chain_key@ == x25519_shared_secret(keypair.private@, target.0@)
            &&& s.ratchet.recv_chain_key@ == x25519_shared_secret(keypair.private@, target.0@)
            &&& s.send_counter == 0
            &&& s.recv_counter == 0
        },
        r matches Err(e) ==> e is Handshake,
{
    let mut initiator = build_initiator(keypair, &target.0)?;
    let mut responder = build_responder(keypair)?;
    let empty: [u8; 0] = [];
    let mut buf: Vec<u8> = vec![0u8; NOISE_BUFFER_LEN];
    let mut read_buf: Vec<u8> = vec![0u8; NOISE_BUFFER_LEN];
    let len = match noise_write_message(&mut initiator, &empty, &mut buf) {
        Ok(n) => n,
        Err(e) => {
            return Err(ZeroError::Handshake(e));
        },
    };
    let first = copy_range(buf.as_slice(), 0, len);
    let _ = noise_read_message(&mut responder, first.as_slice(), &mut read_buf);
    let len = match noise_write_message(&mut responder, &empty, &mut buf) {
        Ok(n) => n,
        Err(e) => {
            return Err(ZeroError::Handshake(e));
        },
    };
    let second = copy_range(buf.as_slice(), 0, len);
    let _ = noise_read_message(&mut initiator, second.as_slice(), &mut read_buf);
    let transport = match noise_into_transport(initiator) {
        Ok(t) => t,
        Err(e) => {
            return Err(ZeroError::Handshake(e));
        },
    };
    let secret = x25519_diffie_hellman(&keypair.private, &target.0);
    Ok(FriendSession::new(transport, secret))
}

/// Adds the nodes a lookup for a friend found to the routing table, all
/// seen at `now`; `false`, and no change, when the lookup found none.
pub fn adopt_peers(table: &mut RoutingTable, found: &Vec<NodeInfo>, now: u64) -> (r: bool)
    requires
        old(table).wf(),
    ensures
        final(table).wf(),
        final(table).local_key == old(table).local_key,
        r == (found@.len() > 0),
        offered_in_turn(old(table).local_key.0@, old(table).view_buckets(), found@, now, final(table).view_buckets()),
{
    if found.len() == 0 {
        return false;
    }
    table.insert_all(found, now);
    true
}

/// Why a message could not be prepared.
#[derive(Debug)]
pub enum SendError {
    /// The lookup found no node for the friend.
    FriendNotFound,
    /// The session could not be established.
    Noise(ZeroError),
    /// The ratchet could not encrypt the message.
    Encrypt(ZeroError),
    /// The onion could not be built or framed.
    Onion(OnionError),
}

/// A client: our keypair and the sessions with friends, by their key.
pub struct ClientCore {
    pub keypair: StaticKeypair,
    pub sessions: KeyMap<FriendSession, 32>,
}

/// The send chain key and counter the next message to `target` starts
/// from: the session's, or those of a new session seeded with the secret
/// shared with `target`.
pub open spec fn send_state_before(c: ClientCore, target: Seq<u8>) -> (Seq<u8>, u64) {
    if c.sessions@.contains_key(target) {
        (c.sessions@[target].ratchet.send_chain_key@, c.sessions@[target].send_counter)
    } else {
        (x25519_shared_secret(c.keypair.private@, target), 0)
    }
}

/// The bytes of the friend message that carries `plaintext`, sealed under
/// the next message key of `chain` with message number `counter`.
pub open spec fn sealed_friend_message(chain: Seq<u8>, counter: u64, plaintext: Seq<u8>) -> Seq<u8> {
    u64_le(counter) + bytes_wire(chacha20poly1305_seal(message_key(chain, true), counter_nonce(counter), plaintext, Seq::<u8>::empty()))
}

/// `t` is an outbound tunnel through the relays chosen for `target` among
/// the nodes of `table`, with `fallback` for missing ones.
pub open spec fn tunnel_for(t: OnionTunnel, table: Seq<NodeInfo>, us: Seq<u8>, target: Seq<u8>, fallback: NodeInfo) -> bool {
    exists|cs: Seq<NodeInfo>| #[trigger] closest_ok(table, target, RELAY_CANDIDATES as nat, cs)
        && (t.hop1, t.hop2, t.hop3) == padded_hops(relay_candidates(cs, us, target), fallback)
        && t.direction == TunnelDirection::Outbound && t.wf()
}

impl ClientCore {
    /// A client with our keypair and no sessions.
    pub fn new(keypair: StaticKeypair) -> (c: Self)
        ensures
            c.keypair == keypair,
            c.sessions@ == Map::<Seq<u8>, FriendSession>::empty(),
    {
        ClientCore { keypair, sessions: KeyMap::new() }
    }

    /// Whether a session with `target` exists.
    pub fn has_session(&self, target: &DhtPublicKey) -> (r: bool)
        ensures
            r == self.sessions@.contains_key(target.0@),
    {
        self.sessions.contains_key(&target.0)
    }

    /// Prepares a message to `target`, whose lookup found `found`: the
    /// session with it (established first when missing) encrypts the
    /// message, which travels in a three-layer onion through relays chosen
    /// by `choose_hops`, the first found node standing in for missing
    /// ones. Returns the packet for the first relay.
    pub fn prepare_message(&mut self, table: &RoutingTable, target: &DhtPublicKey, found: &Vec<NodeInfo>, message: &[u8])
        -> (r: Result<NodeAction, SendError>)
        requires
            table.wf(),
            old(self).sessions@.contains_key(target.0@) ==> old(self).sessions@[target.0@].send_counter < u64::MAX,
        ensures
            final(self).keypair == old(self).keypair,
            found@.len() == 0 <==> r matches Err(SendError::FriendNotFound),
            r matches Err(SendError::FriendNotFound) ==> final(self).sessions@ == old(self).sessions@,
            r matches Err(SendError::Noise(e)) ==> e is Handshake && !old(self).sessions@.contains_key(target.0@)
                && final(self).sessions@ == old(self).sessions@,
            !(r matches Err(SendError::FriendNotFound)) && !(r matches Err(SendError::Noise(_))) ==> {
                let (chain, counter) = send_state_before(*old(self), target.0@);
                let msg = sealed_friend_message(chain, counter, message@);
                let us = old(self).keypair.public@;
                &&& final(self).sessions@ == old(self).sessions@.insert(target.0@, final(self).sessions@[target.0@])
                &&& final(self).sessions@[target.0@].ratchet.send_chain_key@ == next_chain_key(chain)
                &&& (r matches Err(SendError::Encrypt(_)) <==> !aead_len_ok(message@.len()))
                &&& r matches Err(SendError::Encrypt(e)) ==> e is EncryptionError
                    && final(self).sessions@[target.0@].send_counter == counter
                &&& aead_len_ok(message@.len()) ==> final(self).sessions@[target.0@].send_counter == counter + 1
                &&& r matches Err(SendError::Onion(e)) ==> (e is Crypto && exists|t: OnionTunnel|
                    #[trigger] tunnel_for(t, table.table_nodes(), us, target.0@, found@[0]) && !onion_fits(msg.len(), t))
                    || (e is PayloadTooLarge && exists|t: OnionTunnel, n1: Seq<u8>, n2: Seq<u8>, n3: Seq<u8>|
                        tunnel_for(t, table.table_nodes(), us, target.0@, found@[0])
                        && #[trigger] onion_layer1(msg, t, n1, n2, n3).len() + MAX_FRAME_OVERHEAD > usize::MAX)
                &&& r matches Ok(a) ==> exists|t: OnionTunnel, n1: Seq<u8>, n2: Seq<u8>, n3: Seq<u8>|
                    tunnel_for(t, table.table_nodes(), us, target.0@, found@[0])
                    && a.to == t.hop1 && n1.len() == 12 && n2.len() == 12 && n3.len() == 12
                    && frames(a.bytes@, PacketType::OnionRequest, #[trigger] onion_layer1(msg, t, n1, n2, n3))
                    && onion_layers_open(msg, t, n1, n2, n3)
            },
    {
        if found.len() == 0 {
            return Err(SendError::FriendNotFound);
        }
        let ghost old_self = *self;
        let mut session = match self.sessions.remove(&target.0) {
            Some(s) => s,
            None => match establish_session(&self.keypair, target) {
                Ok(s) => s,
                Err(e) => {
                    return Err(SendError::Noise(e));
                },
            },
        };
        proof {
            let (chain, counter) = send_state_before(old_self, target.0@);
            assert(session.ratchet.send_chain_key@ == chain && session.send_counter == counter);
        }
        let ghost before = session;
        let sealed = session.encrypt_message(message);
        self.sessions.insert(target.0, session);
        proof {
            assert(self.sessions@ =~= old_self.sessions@.insert(target.0@, self.sessions@[target.0@]));
        }
        let msg = match sealed {
            Ok(m) => m,
            Err(e) => {
                return Err(SendError::Encrypt(e));
            },
        };
        let bytes = encode_friend_message(&msg);
        proof {
            assert(bytes@ == sealed_friend_message(before.ratchet.send_chain_key@, before.send_counter, message@));
        }
        let us = DhtPublicKey(self.keypair.public);
        let hops = choose_hops(table, &us, target, found[0]);
        let tunnel = OnionTunnel::new(TunnelDirection::Outbound, hops.0, hops.1, hops.2);
        proof {
            assert(tunnel_for(tunnel, table.table_nodes(), old_self.keypair.public@, target.0@, found@[0]));
        }
        let onion = match wrap_onion(bytes.as_slice(), &tunnel) {
            Ok(o) => o,
            Err(e) => {
                return Err(SendError::Onion(e));
            },
        };
        match frame(PacketType::OnionRequest, onion.as_slice()) {
            Some(b) => Ok(NodeAction { to: hops.0, bytes: b }),
            None => Err(SendError::Onion(OnionError::PayloadTooLarge)),
        }
    }
}

} // verus!
