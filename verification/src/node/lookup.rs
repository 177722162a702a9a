//! DHT requests a node sends, and the decisions of an iterative lookup.
use vstd::prelude::*;
use crate::dht::node::{bytes32_eq, DhtPublicKey, NodeInfo};
use crate::dht::packet::{DhtPacket, DhtPayload};
use crate::dht::routing::{closest_ok, RoutingTable, K};
use crate::dht::wire::{dht_packet_wire, encode_dht_packet, encode_payload, payload_wire};
use crate::node::handler::{frame, frames, NodeAction};
use crate::node::packet::PacketType;

verus! {

/// How many unqueried nodes a lookup asks in each round.
pub const LOOKUP_PARALLELISM: usize = 3;

/// Bytes a DHT packet and its framing add around a payload.
pub const DHT_REQUEST_OVERHEAD: usize = 2123;

/// `bytes` is a DHT request from `sender` carrying `body`, with fresh
/// nonce and request id, framed as a FindNode packet.
pub open spec fn dht_request_frames(bytes: Seq<u8>, sender: DhtPublicKey, body: Seq<u8>) -> bool {
    exists|dp: DhtPacket| dp.sender_pk == sender && dp.encrypted_payload@ == body
        && #[trigger] frames(bytes, PacketType::FindNode, dht_packet_wire(dp))
}

/// Wraps `payload` in a DHT packet from `sender`, with a fresh nonce and
/// request id, framed as a FindNode packet; `None` only when the packet
/// would not fit in memory.
pub fn dht_request(sender: DhtPublicKey, payload: &DhtPayload) -> (r: Option<Vec<u8>>)
    ensures
        r is Some <==> payload_wire(*payload).len() + DHT_REQUEST_OVERHEAD <= usize::MAX,
        r matches Some(b) ==> dht_request_frames(b@, sender, payload_wire(*payload)),
{
    let payload_bytes = encode_payload(payload);
    let packet = DhtPacket::new(sender, payload_bytes);
    let packet_bytes = encode_dht_packet(&packet);
    proof {
        assert(dht_packet_wire(packet).len() == 72 + payload_wire(*payload).len());
    }
    let r = frame(PacketType::FindNode, packet_bytes.as_slice());
    proof {
        if r is Some {
            assert(frames(r->0@, PacketType::FindNode, dht_packet_wire(packet)));
        }
    }
    r
}

/// The same DHT request, each with its own nonce and request id, for every
/// node of `nodes`; none when the packet would not fit in memory.
pub fn dht_requests_to(nodes: &Vec<NodeInfo>, sender: DhtPublicKey, payload: &DhtPayload) -> (actions: Vec<NodeAction>)
    ensures
        payload_wire(*payload).len() + DHT_REQUEST_OVERHEAD <= usize::MAX ==> actions@.len() == nodes@.len(),
        payload_wire(*payload).len() + DHT_REQUEST_OVERHEAD > usize::MAX ==> actions@.len() == 0,
        forall|i: int| 0 <= i < actions@.len() ==> (#[trigger] actions@[i]).to == nodes@[i]
            && dht_request_frames(actions@[i].bytes@, sender, payload_wire(*payload)),
{
    let mut actions: Vec<NodeAction> = Vec::new();
    let mut i: usize = 0;
    while i < nodes.len()
        invariant
            i <= nodes@.len(),
            payload_wire(*payload).len() + DHT_REQUEST_OVERHEAD <= usize::MAX ==> actions@.len() == i,
            payload_wire(*payload).len() + DHT_REQUEST_OVERHEAD > usize::MAX ==> actions@.len() == 0,
            forall|j: int| 0 <= j < actions@.len() ==> (#[trigger] actions@[j]).to == nodes@[j]
                && dht_request_frames(actions@[j].bytes@, sender, payload_wire(*payload)),
        decreases nodes@.len() - i,
    {
        match dht_request(sender, payload) {
            Some(b) => {
                actions.push(NodeAction { to: nodes[i], bytes: b });
            },
            None => {},
        }
        i = i + 1;
    }
    actions
}

/// Some entry of `queried` is the key `k`.
pub open spec fn was_queried(queried: Seq<[u8; 32]>, k: Seq<u8>) -> bool {
    exists|j: int| 0 <= j < queried.len() && (#[trigger] queried[j])@ == k
}

/// The nodes of `closest` whose key was not queried yet, in order.
pub open spec fn unqueried(closest: Seq<NodeInfo>, queried: Seq<[u8; 32]>) -> Seq<NodeInfo> {
    closest.filter(|n: NodeInfo| !was_queried(queried, n.dht_pk.0@))
}

/// At most `n` first entries of `s`.
pub open spec fn first_n<A>(s: Seq<A>, n: nat) -> Seq<A> {
    if s.len() <= n { s } else { s.take(n as int) }
}

fn key_queried(queried: &Vec<[u8; 32]>, k: &[u8; 32]) -> (r: bool)
    ensures
        r == was_queried(queried@, k@),
{
    let mut j: usize = 0;
    while j < queried.len()
        invariant
            j <= queried@.len(),
            forall|m: int| 0 <= m < j ==> (#[trigger] queried@[m])@ != k@,
        decreases queried@.len() - j,
    {
        if bytes32_eq(&queried[j], k) {
            return true;
        }
        j = j + 1;
    }
    false
}

proof fn lemma_filter_take_step(s: Seq<NodeInfo>, pred: spec_fn(NodeInfo) -> bool, i: int)
    requires
        0 <= i < s.len(),
    ensures
        s.take(i + 1).filter(pred) == if pred(s[i]) { s.take(i).filter(pred).push(s[i]) } else { s.take(i).filter(pred) },
{
    reveal(Seq::filter);
    assert(s.take(i + 1).drop_last() =~= s.take(i));
    assert(s.take(i + 1).last() == s[i]);
}

/// The next nodes a lookup asks: the first three nodes of `closest` whose
/// key was not queried yet.
pub fn lookup_candidates(closest: &Vec<NodeInfo>, queried: &Vec<[u8; 32]>) -> (r: Vec<NodeInfo>)
    ensures
        r@ == first_n(unqueried(closest@, queried@), LOOKUP_PARALLELISM as nat),
{
    let ghost pred = |n: NodeInfo| !was_queried(queried@, n.dht_pk.0@);
    let mut r: Vec<NodeInfo> = Vec::new();
    let mut i: usize = 0;
    while i < closest.len() && r.len() < LOOKUP_PARALLELISM
        invariant
            i <= closest@.len(),
            r@ == closest@.take(i as int).filter(pred),
            r@.len() <= LOOKUP_PARALLELISM,
            pred == (|n: NodeInfo| !was_queried(queried@, n.dht_pk.0@)),
        decreases closest@.len() - i,
    {
        proof {
            lemma_filter_take_step(closest@, pred, i as int);
        }
        if !key_queried(queried, &closest[i].dht_pk.0) {
            r.push(closest[i]);
        }
        i = i + 1;
    }
    proof {
        let all = closest@;
        assert(all =~= all.take(i as int) + all.skip(i as int));
        Seq::filter_distributes_over_add(all.take(i as int), all.skip(i as int), pred);
        let u = unqueried(all, queried@);
        assert(u == all.filter(pred));
        if r@.len() == LOOKUP_PARALLELISM {
            assert(u.take(LOOKUP_PARALLELISM as int) =~= r@);
        } else {
            assert(i == all.len());
            assert(all.take(i as int) =~= all);
        }
    }
    r
}

/// An iterative lookup of the nodes closest to `target`: which keys it
/// has asked so far.
pub struct DhtLookup {
    pub target: DhtPublicKey,
    pub queried: Vec<[u8; 32]>,
}

/// What a lookup does next.
pub enum LookupStep {
    /// Send these FindNode requests, then wait for answers.
    Query(Vec<NodeAction>),
    /// Every close node was asked: these are the closest nodes known.
    Done(Vec<NodeInfo>),
}

impl DhtLookup {
    /// A lookup of `target` that has asked nobody yet.
    pub fn new(target: DhtPublicKey) -> (l: Self)
        ensures
            l.target == target,
            l.queried@.len() == 0,
    {
        DhtLookup { target, queried: Vec::new() }
    }

    /// One round: takes the K closest nodes of `table`; when all were
    /// asked, the lookup is done with them; otherwise it asks the first
    /// three unasked ones for nodes close to the target, from our key.
    pub fn step(&mut self, table: &RoutingTable) -> (s: LookupStep)
        requires
            table.wf(),
        ensures
            final(self).target == old(self).target,
            exists|cs: Seq<NodeInfo>| #[trigger] closest_ok(table.table_nodes(), old(self).target.0@, K as nat, cs) && {
                let fresh = first_n(unqueried(cs, old(self).queried@), LOOKUP_PARALLELISM as nat);
                match s {
                    LookupStep::Done(found) => fresh.len() == 0 && found@ == cs
                        && final(self).queried@ == old(self).queried@,
                    LookupStep::Query(actions) => {
                        &&& fresh.len() > 0
                        &&& forall|i: int| 0 <= i < fresh.len() ==> !was_queried(old(self).queried@, (#[trigger] fresh[i]).dht_pk.0@)
                        &&& actions@.len() == fresh.len()
                        &&& forall|i: int| 0 <= i < actions@.len() ==> (#[trigger] actions@[i]).to == fresh[i]
                            && dht_request_frames(actions@[i].bytes@, table.local_key,
                                payload_wire(DhtPayload::FindNodeRequest { target_pk: old(self).target }))
                        &&& final(self).queried@ == old(self).queried@ + fresh.map_values(|n: NodeInfo| n.dht_pk.0)
                    },
                }
            },
    {
        let closest = table.find_closest(&self.target, K);
        let fresh = lookup_candidates(&closest, &self.queried);
        if fresh.len() == 0 {
            return LookupStep::Done(closest);
        }
        proof {
            let pred = |n: NodeInfo| !was_queried(self.queried@, n.dht_pk.0@);
            let u = unqueried(closest@, self.queried@);
            assert forall|i: int| 0 <= i < fresh@.len() implies !was_queried(self.queried@, (#[trigger] fresh@[i]).dht_pk.0@) by {
                assert(fresh@[i] == u[i]);
                closest@.lemma_filter_pred(pred, i);
            }
        }
        let ghost q0 = self.queried@;
        let ghost t0 = self.target;
        let mut i: usize = 0;
        while i < fresh.len()
            invariant
                i <= fresh@.len(),
                self.target == t0,
                self.queried@ == q0 + fresh@.take(i as int).map_values(|n: NodeInfo| n.dht_pk.0),
            decreases fresh@.len() - i,
        {
            self.queried.push(fresh[i].dht_pk.0);
            i = i + 1;
            assert(self.queried@ =~= q0 + fresh@.take(i as int).map_values(|n: NodeInfo| n.dht_pk.0));
        }
        assert(fresh@.take(i as int) =~= fresh@);
        let payload = DhtPayload::FindNodeRequest { target_pk: self.target };
        assert(payload_wire(payload).len() == 36);
        let actions = dht_requests_to(&fresh, table.local_key, &payload);
        LookupStep::Query(actions)
    }
}

} // verus!
