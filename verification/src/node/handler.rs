//! The decisions of a node: what to do with each incoming packet, given
//! the routing table, the offline store, the rate limiter and the lease
//! sets it holds. The caller performs the sends it returns.
use vstd::prelude::*;
use crate::crypto::keypair::StaticKeypair;
use crate::dht::node::{DhtPublicKey, LeaseSet, NodeInfo, SocketAddress};
use crate::dht::packet::{DhtPacket, DhtPayload};
use crate::dht::routing::{
    closest_ok, concat_buckets, insert_outcome, lemma_distance_zero_is_self, lemma_node_lz_bound, lemma_offer_into_single_bucket, node_lz,
    offered_in_turn, spread, RoutingTable, K,
};
use crate::dht::wire::{lemma_dht_packet_unique, decode_dht_packet, decode_payload, dht_packet_wire, encode_dht_packet, encode_payload, lease_wire, node_list_wire, payload_received, payload_wire, payload_writable};
use crate::keymap::KeyMap;
use crate::node::packet::{decode_packet, decode_spec, encode_packet, lemma_decode_encode, packet_padding_len, packet_type_byte, PacketType, MAX_FRAME_OVERHEAD};
use crate::node::rate::{counted, ip_key, RateLimiter, MAX_PACKETS_PER_WINDOW};
use crate::offload::blob::{blob_pow_ok, blob_sig_ok, OfflineBlob};
use crate::offload::store::{others, queue_of, sender_count, BlobStore, MAX_BLOB_SIZE, MAX_BLOBS_PER_SENDER};
use crate::offload::wire::{blob_list_wire, blob_writable, decode_store_request, encode_blobs, store_request_wire};
use crate::onion::forward::peel_and_forward;
use crate::onion::packet::{OnionCommand, OnionPacket};
use crate::onion::wire::{
    command_wire, command_writable, encode_packet as encode_onion_packet, lemma_forward_unique, lemma_forward_prefix, lemma_deliver_prefix, lemma_packet_wire_unique, packet_wire, packet_writable,
    read_packet,
};
use crate::onion::packet::hop_key;
use crate::crypto::aead::chacha20poly1305_open;
use crate::wire::{as_received, bytes_wire};
use crate::wire::tag_wire;

verus! {

/// A packet the node wants sent to a peer.
pub struct NodeAction {
    pub to: NodeInfo,
    pub bytes: Vec<u8>,
}

/// `bytes` frames `body` as a packet of type `t`.
pub open spec fn frames(bytes: Seq<u8>, t: PacketType, body: Seq<u8>) -> bool {
    decode_spec(bytes) == Ok::<(PacketType, Seq<u8>), ()>((t, body))
}

/// The node record of a peer that just sent a packet from `addr`.
pub open spec fn reply_node(pk: DhtPublicKey, addr: SocketAddress, now: u64) -> NodeInfo {
    NodeInfo { dht_pk: pk, addr, last_seen: Some(now), reputation: 0, consecutive_failures: 0 }
}

/// `bytes` is a DHT answer from `local` carrying `body`, with fresh nonce
/// and request id, framed as a routing-table response.
pub open spec fn dht_reply(bytes: Seq<u8>, local: DhtPublicKey, body: Seq<u8>) -> bool {
    exists|dp: DhtPacket| dp.sender_pk == local && dp.encrypted_payload@ == body
        && #[trigger] frames(bytes, PacketType::FindNodeResponse, dht_packet_wire(dp))
}

/// A DHT answer carrying `body` fits in memory once wrapped in a DHT
/// packet and framed.
pub open spec fn reply_fits(body: Seq<u8>) -> bool {
    body.len() + 2123 <= usize::MAX
}

/// The body of an answer to a lease-set request for `target`.
pub open spec fn lease_reply_wire(leases: Map<Seq<u8>, LeaseSet>, target: Seq<u8>) -> Seq<u8> {
    tag_wire(7) + if leases.contains_key(target) { seq![1u8] + lease_wire(leases[target]) } else { seq![0u8] }
}

/// Frames `body` as a packet of type `t`; `None` only when the framed
/// packet would not fit in memory.
pub(crate) fn frame(t: PacketType, body: &[u8]) -> (r: Option<Vec<u8>>)
    requires
        t != PacketType::Unknown,
    ensures
        r is Some <==> body@.len() + MAX_FRAME_OVERHEAD <= usize::MAX,
        r matches Some(b) ==> frames(b@, t, body@),
{
    if body.len() > usize::MAX - MAX_FRAME_OVERHEAD {
        return None;
    }
    let b = encode_packet(t, body);
    proof {
        lemma_decode_encode(t, body@, b@);
    }
    Some(b)
}

/// Copies a lease set.
pub(crate) fn copy_lease(l: &LeaseSet) -> (c: LeaseSet)
    ensures
        c.dht_pk == l.dht_pk,
        c.gateways@ == l.gateways@,
        c.expiration == l.expiration,
{
    let mut gateways: Vec<NodeInfo> = Vec::new();
    let mut i: usize = 0;
    while i < l.gateways.len()
        invariant
            i <= l.gateways@.len(),
            gateways@ == l.gateways@.take(i as int),
        decreases l.gateways@.len() - i,
    {
        gateways.push(l.gateways[i]);
        assert(gateways@ =~= l.gateways@.take(i + 1));
        i = i + 1;
    }
    assert(gateways@ =~= l.gateways@);
    LeaseSet { dht_pk: l.dht_pk, gateways, expiration: l.expiration }
}

/// What is stored is what is served: after a lease set is stored, a
/// request for its owner is answered with it.
pub proof fn lemma_stored_lease_is_served(leases: Map<Seq<u8>, LeaseSet>, l: LeaseSet)
    ensures
        lease_reply_wire(leases.insert(l.dht_pk.0@, l), l.dht_pk.0@) == tag_wire(7) + (seq![1u8] + lease_wire(l)),
{
}

/// Lease sets carry their expiry in seconds while the node's clock runs in
/// milliseconds: a lease set offered at `now` is stored for its owner when
/// it expires later than `now`, counted in milliseconds, and is refused,
/// leaving the store as it was, when it has already expired.
pub proof fn lemma_lease_kept_until_expiry(o: NodeCore, n: NodeCore, addr: SocketAddress, now: u64, dp: DhtPacket, lease: LeaseSet, actions: Seq<NodeAction>)
    requires
        dht_effect(o, n, addr, now, dp, DhtPayload::StoreLeaseRequest { lease }, actions),
    ensures
        lease.expiration * 1000 > now ==> n.lease_store@.contains_key(lease.dht_pk.0@)
            && n.lease_store@[lease.dht_pk.0@] == lease,
        lease.expiration * 1000 <= now ==> n.lease_store@ == o.lease_store@,
{
    let e = lease.expiration as int;
    let t = now as int;
    assert(e * 1000 > t <==> e > t / 1000) by (nonlinear_arith)
        requires
            t >= 0;
}

/// A node learns the nodes it is told about: when a node whose table is
/// still a single empty bucket gets a node-list answer, the sender and then
/// every listed node are taken into that bucket in order, as long as they
/// are at most `K`, none is the node itself, and no two share a key or an
/// IPv4 /24 subnet.
pub proof fn lemma_answer_nodes_are_learned(o: NodeCore, n: NodeCore, addr: SocketAddress, now: u64, dp: DhtPacket, nodes: Vec<NodeInfo>, actions: Seq<NodeAction>)
    requires
        dht_effect(o, n, addr, now, dp, DhtPayload::FindNodeResponse { nodes }, actions),
        o.routing_table.view_buckets() == seq![Seq::<NodeInfo>::empty()],
        nodes@.len() < K,
        spread(seq![reply_node(dp.sender_pk, addr, now)] + nodes@),
        dp.sender_pk != o.routing_table.local_key,
        forall|i: int| 0 <= i < nodes@.len() ==> #[trigger] nodes@[i].dht_pk != o.routing_table.local_key,
    ensures
        n.routing_table.view_buckets() == seq![seq![reply_node(dp.sender_pk, addr, now)] + nodes@],
        actions.len() == 0,
{
    let local = o.routing_table.local_key;
    let sender = reply_node(dp.sender_pk, addr, now);
    let v = o.routing_table.view_buckets();
    let all = seq![sender] + nodes@;
    assert forall|i: int| 0 <= i < all.len() implies node_lz(local.0@, #[trigger] all[i]) < 256 by {
        lemma_node_lz_bound(local.0@, all[i]);
        if node_lz(local.0@, all[i]) == 256 {
            lemma_distance_zero_is_self(local.0@, all[i].dht_pk.0@);
            if i == 0 {
                assert(all[i].dht_pk == dp.sender_pk);
                assert(dp.sender_pk.0 =~= local.0);
            } else {
                assert(all[i] == nodes@[i - 1]);
                assert(nodes@[i - 1].dht_pk.0 =~= local.0);
            }
        }
    }
    let (mid, ins) = choose|mid: Seq<Seq<NodeInfo>>, ins: bool|
        #[trigger] insert_outcome(local.0@, v, mid, sender, now, ins) && offered_in_turn(local.0@, mid, nodes@, now, n.routing_table.view_buckets());
    let one = seq![sender];
    let e = Seq::<NodeInfo>::empty();
    assert(one.drop_last() =~= e);
    assert(one.last() == sender);
    assert(v == seq![e]);
    assert(offered_in_turn(local.0@, seq![e], one.drop_last(), now, v));
    assert(insert_outcome(local.0@, seq![e], mid, one.last(), now, ins));
    assert(offered_in_turn(local.0@, seq![e], one, now, mid));
    assert(e + one =~= one);
    assert(spread(e + one)) by {
        assert(one[0] == all[0]);
    }
    assert(node_lz(local.0@, (e + one)[0]) < 256) by {
        assert(all[0] == sender);
    }
    lemma_offer_into_single_bucket(local.0@, e, one, now, mid);
    assert(one + nodes@ =~= all);
    lemma_offer_into_single_bucket(local.0@, one, nodes@, now, n.routing_table.view_buckets());
}

/// The node's state: its identity, routing table, offline store, rate
/// limiter and the lease sets it keeps for others.
pub struct NodeCore {
    pub keypair: StaticKeypair,
    pub routing_table: RoutingTable,
    pub blob_store: BlobStore,
    pub rate_limiter: RateLimiter,
    pub lease_store: KeyMap<LeaseSet, 32>,
    /// The lease set this node last published for itself.
    pub current_lease: Option<LeaseSet>,
}

/// What a DHT request or answer does: the sender is offered to the routing
/// table, then the payload is served.
pub open spec fn dht_effect(o: NodeCore, n: NodeCore, addr: SocketAddress, now: u64, dp: DhtPacket, pl: DhtPayload, actions: Seq<NodeAction>) -> bool {
    let sender = reply_node(dp.sender_pk, addr, now);
    let local = o.routing_table.local_key;
    exists|mid: Seq<Seq<NodeInfo>>, ins: bool|
        #[trigger] insert_outcome(local.0@, o.routing_table.view_buckets(), mid, sender, now, ins) && match pl {
            DhtPayload::FindNodeRequest { target_pk } => {
                &&& n.routing_table.view_buckets() == mid
                &&& n.lease_store@ == o.lease_store@
                &&& exists|cs: Seq<NodeInfo>| #[trigger] closest_ok(concat_buckets(mid), target_pk.0@, K as nat, cs)
                    && actions.len() == (if reply_fits(tag_wire(3) + node_list_wire(cs)) { 1int } else { 0int })
                    && (actions.len() == 1 ==> actions[0].to == sender
                        && dht_reply(actions[0].bytes@, local, tag_wire(3) + node_list_wire(cs)))
            },
            DhtPayload::FindNodeResponse { nodes } => {
                &&& actions.len() == 0
                &&& offered_in_turn(local.0@, mid, nodes@, now, n.routing_table.view_buckets())
                &&& n.lease_store@ == o.lease_store@
            },
            DhtPayload::StoreLeaseRequest { lease } => {
                &&& actions.len() == 0
                &&& n.routing_table.view_buckets() == mid
                &&& n.lease_store@ == if lease.expiration > now / 1000 { o.lease_store@.insert(lease.dht_pk.0@, lease) } else { o.lease_store@ }
            },
            DhtPayload::GetLeaseRequest { target_pk } => {
                &&& n.routing_table.view_buckets() == mid
                &&& n.lease_store@ == o.lease_store@
                &&& actions.len() == (if reply_fits(lease_reply_wire(o.lease_store@, target_pk.0@)) { 1int } else { 0int })
                &&& actions.len() == 1 ==> actions[0].to == sender && dht_reply(actions[0].bytes@, local, lease_reply_wire(o.lease_store@, target_pk.0@))
            },
            _ => actions.len() == 0 && n.routing_table.view_buckets() == mid && n.lease_store@ == o.lease_store@,
        }
}

/// Whether the store accepts `blob` for a target at `now` (seconds): small
/// enough, unexpired, with valid proof of work and signature, and its
/// sender under quota.
pub open spec fn blob_accepted(entries: Seq<([u8; 32], OfflineBlob)>, blob: OfflineBlob, now: u64) -> bool {
    &&& blob.ciphertext@.len() <= MAX_BLOB_SIZE
    &&& now <= blob.expires_at
    &&& blob_pow_ok(blob)
    &&& blob_sig_ok(blob)
    &&& sender_count(entries, blob.sender_pk.0@) < MAX_BLOBS_PER_SENDER
}

/// A blob as the offload client makes it (valid proof of work and
/// signature) is accepted by a node until it expires, while it is small
/// enough and its sender is under quota.
pub proof fn lemma_client_blob_accepted(entries: Seq<([u8; 32], OfflineBlob)>, b: OfflineBlob, now: u64)
    requires
        blob_pow_ok(b),
        blob_sig_ok(b),
        b.ciphertext@.len() <= MAX_BLOB_SIZE,
        sender_count(entries, b.sender_pk.0@) < MAX_BLOBS_PER_SENDER,
    ensures
        blob_accepted(entries, b, now) <==> now <= b.expires_at,
{
}

/// The node's tables other than the rate limiter are as before.
pub open spec fn tables_unchanged(o: NodeCore, n: NodeCore) -> bool {
    &&& n.routing_table.view_buckets() == o.routing_table.view_buckets()
    &&& n.blob_store.entries() == o.blob_store.entries()
    &&& n.lease_store@ == o.lease_store@
}

/// `n` is the record with the all-zero key that stands for an unknown
/// peer at `addr`, seen at `now`.
pub open spec fn is_anonymous_peer(n: NodeInfo, addr: SocketAddress, now: u64) -> bool {
    &&& n.dht_pk.0@ == seq![0u8; 32]
    &&& n.addr == addr
    &&& n.last_seen == Some(now)
    &&& n.reputation == 0
    &&& n.consecutive_failures == 0
}

/// No onion command's bytes begin the plaintext `pt`.
pub open spec fn no_command(pt: Seq<u8>) -> bool {
    forall|c: OnionCommand| command_writable(c) ==> !(#[trigger] command_wire(c)).is_prefix_of(pt)
}

/// `mid` is the node `o` after a packet from `addr` at `now` was counted
/// against the rate limit, with nothing else changed.
pub open spec fn rate_counted(o: NodeCore, mid: NodeCore, addr: SocketAddress, now: u64) -> bool {
    let k = ip_key(addr.ip);
    let w = o.rate_limiter.view_windows();
    &&& mid.keypair == o.keypair
    &&& mid.routing_table == o.routing_table
    &&& mid.blob_store == o.blob_store
    &&& mid.lease_store == o.lease_store
    &&& mid.current_lease == o.current_lease
    &&& mid.rate_limiter.view_windows() == w.insert(k, counted(if w.contains_key(k) { Some(w[k]) } else { None }, now))
}

/// What handling the packet `raw` from `addr` at `now` does to the node
/// `o`, giving the node `n` and the packets `actions` to send: the address
/// is counted against its rate limit, and within the limit the packet is
/// served by its type.
pub open spec fn packet_outcome(o: NodeCore, n: NodeCore, addr: SocketAddress, raw: Seq<u8>, now: u64, actions: Seq<NodeAction>) -> bool
    decreases raw.len(),
{
    let k = ip_key(addr.ip);
    let w = o.rate_limiter.view_windows();
    let after = counted(if w.contains_key(k) { Some(w[k]) } else { None }, now);
    &&& after.0 > MAX_PACKETS_PER_WINDOW ==> actions.len() == 0 && tables_unchanged(o, n)
        && n.rate_limiter.view_windows() == w.insert(k, after)
    &&& after.0 <= MAX_PACKETS_PER_WINDOW ==> match decode_spec(raw) {
        Err(_) => actions.len() == 0 && tables_unchanged(o, n)
            && n.rate_limiter.view_windows() == w.insert(k, after),
        Ok((t, body)) => match t {
            PacketType::FindNode | PacketType::FindNodeResponse => {
                &&& n.rate_limiter.view_windows() == w.insert(k, after)
                &&& n.blob_store.entries() == o.blob_store.entries()
                &&& (forall|dp: DhtPacket| !(#[trigger] dht_packet_wire(dp)).is_prefix_of(body)) ==> actions.len() == 0
                    && tables_unchanged(o, n)
                &&& (exists|dp: DhtPacket| #[trigger] dht_packet_wire(dp).is_prefix_of(body) && dp.encrypted_payload@.len() <= u64::MAX
                    && forall|pl: DhtPayload| payload_writable(pl) ==> !(#[trigger] payload_wire(pl)).is_prefix_of(dp.encrypted_payload@))
                    ==> actions.len() == 0 && tables_unchanged(o, n)
                &&& (exists|dp: DhtPacket, pl: DhtPayload| dht_packet_wire(dp).is_prefix_of(body) && dp.encrypted_payload@.len() <= u64::MAX
                    && #[trigger] payload_wire(pl).is_prefix_of(dp.encrypted_payload@) && payload_writable(pl))
                    ==> exists|dp: DhtPacket, pl: DhtPayload| dht_packet_wire(dp).is_prefix_of(body)
                    && payload_wire(pl).is_prefix_of(dp.encrypted_payload@) && payload_received(pl)
                    && #[trigger] dht_effect(o, n, addr, now, dp, pl, actions)
            },
            PacketType::OffloadStore => {
                &&& actions.len() == 0
                &&& n.routing_table == o.routing_table
                &&& n.lease_store@ == o.lease_store@
                &&& n.rate_limiter.view_windows() == w.insert(k, after)
                &&& (exists|t: Seq<u8>, b: OfflineBlob| t.len() == 32 && blob_writable(b) && #[trigger] store_request_wire(t, b).is_prefix_of(body))
                    ==> exists|t: [u8; 32], b: OfflineBlob| #[trigger] store_request_wire(t@, b).is_prefix_of(body)
                    && n.blob_store.entries() == if blob_accepted(o.blob_store.entries(), b, now / 1000) {
                        o.blob_store.entries().push((t, b))
                    } else {
                        o.blob_store.entries()
                    }
                &&& (forall|t: Seq<u8>, b: OfflineBlob| t.len() == 32 && blob_writable(b) ==> !(#[trigger] store_request_wire(t, b)).is_prefix_of(body))
                    ==> n.blob_store.entries() == o.blob_store.entries()
            },
            PacketType::OffloadRetrieve => {
                &&& n.routing_table == o.routing_table
                &&& n.lease_store@ == o.lease_store@
                &&& n.rate_limiter.view_windows() == w.insert(k, after)
                &&& body.len() < 32 ==> actions.len() == 0 && n.blob_store.entries() == o.blob_store.entries()
                &&& body.len() >= 32 ==> n.blob_store.entries() == others(o.blob_store.entries(), body.subrange(0, 32))
                    && actions.len() == (if blob_list_wire(queue_of(o.blob_store.entries(), body.subrange(0, 32))).len() + MAX_FRAME_OVERHEAD <= usize::MAX { 1int } else { 0int })
                    && (actions.len() == 1 ==> is_anonymous_peer(actions[0].to, addr, now)
                        && frames(actions[0].bytes@, PacketType::OffloadRetrieve,
                            blob_list_wire(queue_of(o.blob_store.entries(), body.subrange(0, 32)))))
            },
            PacketType::OnionRequest => {
                &&& (forall|p: OnionPacket| !(#[trigger] packet_wire(p)).is_prefix_of(body))
                    ==> actions.len() == 0 && tables_unchanged(o, n)
                    && n.rate_limiter.view_windows() == w.insert(k, after)
                &&& forall|p: OnionPacket| #[trigger] packet_wire(p).is_prefix_of(body) && packet_writable(p) ==> {
                    let opened = chacha20poly1305_open(hop_key(o.keypair.private@, p.ephemeral_pk@), p.nonce@, p.payload@,
                        Seq::<u8>::empty());
                    &&& opened is None ==> actions.len() == 0 && tables_unchanged(o, n)
                        && n.rate_limiter.view_windows() == w.insert(k, after)
                    &&& forall|pt: Seq<u8>| opened == Some(pt) && no_command(pt) ==> actions.len() == 0
                        && tables_unchanged(o, n) && n.rate_limiter.view_windows() == w.insert(k, after)
                    &&& forall|h: NodeInfo, q: OnionPacket, pt: Seq<u8>| opened == Some(pt) && packet_writable(q)
                        && #[trigger] command_wire(OnionCommand::Forward { next_hop: h, packet: q }).is_prefix_of(pt)
                        ==> actions.len() == (if packet_wire(q).len() + MAX_FRAME_OVERHEAD <= usize::MAX { 1int } else { 0int })
                        && tables_unchanged(o, n)
                        && n.rate_limiter.view_windows() == w.insert(k, after)
                        && (actions.len() == 1 ==> actions[0].to == as_received(h)
                            && frames(actions[0].bytes@, PacketType::OnionRequest, packet_wire(q)))
                    &&& forall|f: Vec<u8>, pt: Seq<u8>| opened == Some(pt) && f@.len() < raw.len()
                        && #[trigger] command_wire(OnionCommand::Deliver { final_payload: f }).is_prefix_of(pt)
                        ==> exists|mid: NodeCore| #[trigger] rate_counted(o, mid, addr, now)
                            && packet_outcome(mid, n, addr, f@, now, actions)
                }
            },
            _ => actions.len() == 0 && tables_unchanged(o, n)
                && n.rate_limiter.view_windows() == w.insert(k, after),
        },
    }
}

impl NodeCore {
    /// The node's invariant: a well-formed routing table keyed by its own
    /// public key, and a well-formed keypair.
    pub open spec fn wf(&self) -> bool {
        &&& self.routing_table.wf()
        &&& self.keypair.wf()
        &&& self.routing_table.local_key.0 == self.keypair.public
    }

    /// A node with the given identity and empty tables.
    pub fn new(keypair: StaticKeypair) -> (c: Self)
        requires
            keypair.wf(),
        ensures
            c.wf(),
            c.keypair == keypair,
            c.blob_store.entries() == Seq::<([u8; 32], crate::offload::blob::OfflineBlob)>::empty(),
            c.lease_store@ == Map::<Seq<u8>, LeaseSet>::empty(),
            c.current_lease is None,
    {
        let identity_pk = DhtPublicKey(keypair.public);
        NodeCore {
            keypair,
            routing_table: RoutingTable::new(identity_pk),
            blob_store: BlobStore::new(),
            rate_limiter: RateLimiter::new(),
            lease_store: KeyMap::new(),
            current_lease: None,
        }
    }

    /// Serves a DHT packet's payload from `addr`.
    fn handle_dht(&mut self, addr: SocketAddress, body: &[u8], now: u64) -> (actions: Vec<NodeAction>)
        requires
            old(self).wf(),
        ensures
            final(self).wf(),
            final(self).routing_table.local_key == old(self).routing_table.local_key,
            final(self).keypair == old(self).keypair,
            final(self).blob_store.entries() == old(self).blob_store.entries(),
            final(self).rate_limiter.view_windows() == old(self).rate_limiter.view_windows(),
            (forall|dp: DhtPacket| !(#[trigger] dht_packet_wire(dp)).is_prefix_of(body@)) ==> actions@.len() == 0
                && final(self).routing_table.view_buckets() == old(self).routing_table.view_buckets()
                && final(self).lease_store@ == old(self).lease_store@,
            (exists|dp: DhtPacket| #[trigger] dht_packet_wire(dp).is_prefix_of(body@) && dp.encrypted_payload@.len() <= u64::MAX
                && forall|pl: DhtPayload| payload_writable(pl) ==> !(#[trigger] payload_wire(pl)).is_prefix_of(dp.encrypted_payload@))
                ==> actions@.len() == 0
                && final(self).routing_table.view_buckets() == old(self).routing_table.view_buckets()
                && final(self).lease_store@ == old(self).lease_store@,
            (exists|dp: DhtPacket, pl: DhtPayload| dht_packet_wire(dp).is_prefix_of(body@) && dp.encrypted_payload@.len() <= u64::MAX
                && #[trigger] payload_wire(pl).is_prefix_of(dp.encrypted_payload@) && payload_writable(pl))
                ==> exists|dp: DhtPacket, pl: DhtPayload| dht_packet_wire(dp).is_prefix_of(body@)
                && payload_wire(pl).is_prefix_of(dp.encrypted_payload@) && payload_received(pl)
                && #[trigger] dht_effect(*old(self), *final(self), addr, now, dp, pl, actions@),
    {
        let mut actions: Vec<NodeAction> = Vec::new();
        let dp = match decode_dht_packet(body) {
            Some(p) => p,
            None => {
                return actions;
            },
        };
        proof {
            assert forall|d2: DhtPacket| #[trigger] dht_packet_wire(d2).is_prefix_of(body@) && d2.encrypted_payload@.len() <= u64::MAX
                implies d2.encrypted_payload@ == dp.encrypted_payload@ by {
                lemma_dht_packet_unique(d2, dp, body@);
            }
        }
        let pl = match decode_payload(dp.encrypted_payload.as_slice()) {
            Some(p) => p,
            None => {
                return actions;
            },
        };
        let ghost o = *old(self);
        let sender = NodeInfo { dht_pk: dp.sender_pk, addr, last_seen: Some(now), reputation: 0, consecutive_failures: 0 };
        let ins = self.routing_table.insert_at(sender, now);
        let ghost mid = self.routing_table.view_buckets();
        let local = self.routing_table.local_key;
        match pl {
            DhtPayload::FindNodeRequest { target_pk } => {
                let closest = self.routing_table.find_closest(&target_pk, K);
                let reply = DhtPayload::FindNodeResponse { nodes: closest };
                let reply_bytes = encode_payload(&reply);
                let packet = DhtPacket::new(local, reply_bytes);
                let packet_bytes = encode_dht_packet(&packet);
                match frame(PacketType::FindNodeResponse, packet_bytes.as_slice()) {
                    Some(b) => {
                        actions.push(NodeAction { to: sender, bytes: b });
                    },
                    None => {},
                }
                proof {
                    assert(payload_wire(reply) =~= tag_wire(3) + node_list_wire(closest@));
                    if actions@.len() == 1 {
                        assert(dht_reply(actions@[0].bytes@, local, tag_wire(3) + node_list_wire(closest@)));
                    }
                    assert(dht_effect(o, *self, addr, now, dp, DhtPayload::FindNodeRequest { target_pk }, actions@));
                }
            },
            DhtPayload::FindNodeResponse { nodes } => {
                self.routing_table.insert_all(&nodes, now);
                proof {
                    assert(dht_effect(o, *self, addr, now, dp, DhtPayload::FindNodeResponse { nodes }, actions@));
                }
            },
            DhtPayload::StoreLeaseRequest { lease } => {
                let ghost l = lease;
                if lease.expiration > now / 1000 {
                    let key = lease.dht_pk.0;
                    self.lease_store.insert(key, lease);
                }
                proof {
                    assert(dht_effect(o, *self, addr, now, dp, DhtPayload::StoreLeaseRequest { lease: l }, actions@));
                }
            },
            DhtPayload::GetLeaseRequest { target_pk } => {
                let lease = match self.lease_store.get(&target_pk.0) {
                    Some(l) => Some(copy_lease(l)),
                    None => None,
                };
                let reply = DhtPayload::GetLeaseResponse { lease };
                let reply_bytes = encode_payload(&reply);
                let packet = DhtPacket::new(local, reply_bytes);
                let packet_bytes = encode_dht_packet(&packet);
                match frame(PacketType::FindNodeResponse, packet_bytes.as_slice()) {
                    Some(b) => {
                        actions.push(NodeAction { to: sender, bytes: b });
                    },
                    None => {},
                }
                proof {
                    assert(payload_wire(reply) =~= lease_reply_wire(o.lease_store@, target_pk.0@));
                    if actions@.len() == 1 {
                        assert(dht_reply(actions@[0].bytes@, local, lease_reply_wire(o.lease_store@, target_pk.0@)));
                    }
                    assert(dht_effect(o, *self, addr, now, dp, DhtPayload::GetLeaseRequest { target_pk }, actions@));
                }
            },
            other => {
                proof {
                    assert(dht_effect(o, *self, addr, now, dp, other, actions@));
                }
            },
        }
        actions
    }

    /// Stores an offline blob a peer hands us.
    fn handle_offload_store(&mut self, body: &[u8], now: u64) -> (actions: Vec<NodeAction>)
        requires
            old(self).wf(),
        ensures
            final(self).wf(),
            final(self).routing_table == old(self).routing_table,
            final(self).keypair == old(self).keypair,
            final(self).lease_store@ == old(self).lease_store@,
            final(self).rate_limiter.view_windows() == old(self).rate_limiter.view_windows(),
            actions@.len() == 0,
            (forall|t: Seq<u8>, b: OfflineBlob| t.len() == 32 && blob_writable(b) ==> !(#[trigger] store_request_wire(t, b)).is_prefix_of(body@))
                ==> final(self).blob_store.entries() == old(self).blob_store.entries(),
            (exists|t: Seq<u8>, b: OfflineBlob| t.len() == 32 && blob_writable(b) && #[trigger] store_request_wire(t, b).is_prefix_of(body@))
                ==> exists|t: [u8; 32], b: OfflineBlob| #[trigger] store_request_wire(t@, b).is_prefix_of(body@)
                && final(self).blob_store.entries() == if blob_accepted(old(self).blob_store.entries(), b, now / 1000) {
                    old(self).blob_store.entries().push((t, b))
                } else {
                    old(self).blob_store.entries()
                },
    {
        let actions: Vec<NodeAction> = Vec::new();
        match decode_store_request(body) {
            Some((target, blob)) => {
                let _ = self.blob_store.store_blob(target, blob, now / 1000);
            },
            None => {},
        }
        actions
    }

    /// Hands a peer every blob stored for the announce key it asks about.
    fn handle_offload_retrieve(&mut self, addr: SocketAddress, body: &[u8], now: u64) -> (actions: Vec<NodeAction>)
        requires
            old(self).wf(),
        ensures
            final(self).wf(),
            final(self).routing_table == old(self).routing_table,
            final(self).keypair == old(self).keypair,
            final(self).lease_store@ == old(self).lease_store@,
            final(self).rate_limiter.view_windows() == old(self).rate_limiter.view_windows(),
            body@.len() < 32 ==> actions@.len() == 0 && final(self).blob_store.entries() == old(self).blob_store.entries(),
            body@.len() >= 32 ==> {
                let target = body@.subrange(0, 32);
                &&& final(self).blob_store.entries() == others(old(self).blob_store.entries(), target)
                &&& actions@.len() == (if blob_list_wire(queue_of(old(self).blob_store.entries(), target)).len() + MAX_FRAME_OVERHEAD <= usize::MAX { 1int } else { 0int })
                &&& actions@.len() == 1 ==> is_anonymous_peer(actions@[0].to, addr, now)
                    && frames(actions@[0].bytes@, PacketType::OffloadRetrieve, blob_list_wire(queue_of(old(self).blob_store.entries(), target)))
            },
    {
        let mut actions: Vec<NodeAction> = Vec::new();
        if body.len() < 32 {
            return actions;
        }
        let target = crate::bytes::array32_at(body, 0);
        let blobs = self.blob_store.fetch_blobs(&target);
        let serialized = encode_blobs(&blobs);
        match frame(PacketType::OffloadRetrieve, serialized.as_slice()) {
            Some(b) => {
                let zero = [0u8; 32];
                assert(zero@ =~= seq![0u8; 32]);
                let to = NodeInfo { dht_pk: DhtPublicKey(zero), addr, last_seen: Some(now), reputation: 0, consecutive_failures: 0 };
                actions.push(NodeAction { to, bytes: b });
            },
            None => {},
        }
        actions
    }

    /// Peels an onion layer addressed to us: forwards the inner packet to
    /// the next hop, or handles the delivered payload as a packet from the
    /// same peer.
    fn handle_onion(&mut self, addr: SocketAddress, body: &[u8], now: u64) -> (actions: Vec<NodeAction>)
        requires
            old(self).wf(),
        ensures
            final(self).wf(),
            final(self).routing_table.local_key == old(self).routing_table.local_key,
            final(self).keypair == old(self).keypair,
            (forall|p: OnionPacket| !(#[trigger] packet_wire(p)).is_prefix_of(body@)) ==> actions@.len() == 0
                && tables_unchanged(*old(self), *final(self))
                && final(self).rate_limiter.view_windows() == old(self).rate_limiter.view_windows(),
            forall|p: OnionPacket| #[trigger] packet_wire(p).is_prefix_of(body@) && packet_writable(p) ==> {
                let opened = chacha20poly1305_open(hop_key(old(self).keypair.private@, p.ephemeral_pk@), p.nonce@, p.payload@,
                    Seq::<u8>::empty());
                &&& opened is None ==> actions@.len() == 0 && tables_unchanged(*old(self), *final(self))
                    && final(self).rate_limiter.view_windows() == old(self).rate_limiter.view_windows()
                &&& forall|pt: Seq<u8>| opened == Some(pt) && no_command(pt) ==> actions@.len() == 0
                    && tables_unchanged(*old(self), *final(self))
                    && final(self).rate_limiter.view_windows() == old(self).rate_limiter.view_windows()
                &&& forall|h: NodeInfo, q: OnionPacket, pt: Seq<u8>| opened == Some(pt) && packet_writable(q)
                    && #[trigger] command_wire(OnionCommand::Forward { next_hop: h, packet: q }).is_prefix_of(pt)
                    ==> actions@.len() == (if packet_wire(q).len() + MAX_FRAME_OVERHEAD <= usize::MAX { 1int } else { 0int })
                    && tables_unchanged(*old(self), *final(self))
                    && final(self).rate_limiter.view_windows() == old(self).rate_limiter.view_windows()
                    && (actions@.len() == 1 ==> actions@[0].to == as_received(h)
                        && frames(actions@[0].bytes@, PacketType::OnionRequest, packet_wire(q)))
                &&& forall|f: Vec<u8>, pt: Seq<u8>| opened == Some(pt)
                    && #[trigger] command_wire(OnionCommand::Deliver { final_payload: f }).is_prefix_of(pt)
                    ==> f@.len() < body@.len() && packet_outcome(*old(self), *final(self), addr, f@, now, actions@)
            },
        decreases body@.len(), 1nat,
    {
        let mut actions: Vec<NodeAction> = Vec::new();
        let (packet, _end) = match read_packet(body, 0) {
            Some(x) => x,
            None => {
                proof {
                    assert(body@.skip(0) =~= body@);
                }
                return actions;
            },
        };
        proof {
            assert forall|p: OnionPacket| #[trigger] packet_wire(p).is_prefix_of(body@) && packet_writable(p)
                implies p.ephemeral_pk == packet.ephemeral_pk && p.nonce == packet.nonce && p.payload@ == packet.payload@ by {
                assert(body@.skip(0) =~= body@);
                crate::wire::lemma_prefix_at(packet_wire(packet), body@, 0, _end as int);
                lemma_packet_wire_unique(p, packet, body@);
            }
        }
        let ghost kp = self.keypair;
        let peeled = peel_and_forward(&packet, &self.keypair);
        let ghost opened = chacha20poly1305_open(hop_key(kp.private@, packet.ephemeral_pk@), packet.nonce@, packet.payload@,
            Seq::<u8>::empty());
        match peeled {
            Ok(OnionCommand::Forward { next_hop, packet: inner }) => {
                proof {
                    assert(inner.payload.len() == inner.payload@.len());
                    let c = OnionCommand::Forward { next_hop, packet: inner };
                    assert(command_writable(c));
                    assert forall|pt: Seq<u8>| opened == Some(pt) implies !no_command(pt) by {
                        assert(command_wire(c).is_prefix_of(pt));
                    }
                    assert forall|f: Vec<u8>, pt: Seq<u8>| opened == Some(pt)
                        && #[trigger] command_wire(OnionCommand::Deliver { final_payload: f }).is_prefix_of(pt) implies false by {
                        lemma_forward_prefix(next_hop, inner, pt);
                        lemma_deliver_prefix(f, pt);
                    }
                    assert forall|h: NodeInfo, q: OnionPacket, pt: Seq<u8>| chacha20poly1305_open(hop_key(kp.private@, packet.ephemeral_pk@),
                        packet.nonce@, packet.payload@, Seq::<u8>::empty()) == Some(pt) && packet_writable(q)
                        && #[trigger] command_wire(OnionCommand::Forward { next_hop: h, packet: q }).is_prefix_of(pt)
                        implies as_received(h) == next_hop && packet_wire(q) == packet_wire(inner) by {
                        lemma_forward_unique(h, q, next_hop, inner, pt);
                    }
                }
                let serialized = encode_onion_packet(&inner);
                match frame(PacketType::OnionRequest, serialized.as_slice()) {
                    Some(b) => {
                        actions.push(NodeAction { to: next_hop, bytes: b });
                    },
                    None => {},
                }
            },
            Ok(OnionCommand::Deliver { final_payload }) => {
                proof {
                    assert(packet_wire(packet).len() == 52 + packet.payload@.len());
                    assert(final_payload.len() == final_payload@.len());
                    let c = OnionCommand::Deliver { final_payload };
                    assert(command_writable(c));
                    assert forall|pt: Seq<u8>| opened == Some(pt) implies !no_command(pt) by {
                        assert(command_wire(c).is_prefix_of(pt));
                    }
                    assert forall|h: NodeInfo, q: OnionPacket, pt: Seq<u8>| chacha20poly1305_open(hop_key(kp.private@, packet.ephemeral_pk@),
                        packet.nonce@, packet.payload@, Seq::<u8>::empty()) == Some(pt)
                        && #[trigger] command_wire(OnionCommand::Forward { next_hop: h, packet: q }).is_prefix_of(pt)
                        implies false by {
                        lemma_forward_prefix(h, q, pt);
                        lemma_deliver_prefix(final_payload, pt);
                    }
                }
                actions = self.handle_packet(addr, final_payload.as_slice(), now);
                proof {
                    assert forall|f: Vec<u8>, pt: Seq<u8>| opened == Some(pt)
                        && #[trigger] command_wire(OnionCommand::Deliver { final_payload: f }).is_prefix_of(pt)
                        implies f@ == final_payload@ by {
                        assert(f.len() == f@.len());
                        assert(final_payload.len() == final_payload@.len());
                        let a = OnionCommand::Deliver { final_payload: f };
                        let b = OnionCommand::Deliver { final_payload };
                        crate::onion::wire::lemma_command_wire_unique(a, b, pt);
                        assert(command_wire(a).skip(4) =~= bytes_wire(f@));
                        assert(command_wire(b).skip(4) =~= bytes_wire(final_payload@));
                        assert(bytes_wire(f@).is_prefix_of(bytes_wire(f@)));
                        crate::wire::lemma_bytes_wire_unique(f@, final_payload@, bytes_wire(f@));
                    }
                }
            },
            Err(_) => {},
        }
        actions
    }

    /// Decides what to do with a packet from `addr` at `now` (milliseconds):
    /// drops it when the address exceeds 100 packets per second or the
    /// framing is invalid, then serves it by type. The returned packets are
    /// for the caller to send.
    pub fn handle_packet(&mut self, addr: SocketAddress, raw: &[u8], now: u64) -> (actions: Vec<NodeAction>)
        requires
            old(self).wf(),
        ensures
            final(self).wf(),
            final(self).routing_table.local_key == old(self).routing_table.local_key,
            final(self).keypair == old(self).keypair,
            packet_outcome(*old(self), *final(self), addr, raw@, now, actions@),
        decreases raw@.len(), 2nat,
    {
        if !self.rate_limiter.check(&addr.ip, now) {
            return Vec::new();
        }
        match decode_packet(raw) {
            Err(_) => Vec::new(),
            Ok((packet_type, body)) => {
                let ghost s1 = *self;
                match packet_type {
                    PacketType::FindNode | PacketType::FindNodeResponse => {
                        let actions = self.handle_dht(addr, body, now);
                        proof {
                            assert forall|dp: DhtPacket, pl: DhtPayload| #[trigger] dht_effect(s1, *self, addr, now, dp, pl, actions@)
                                implies dht_effect(*old(self), *self, addr, now, dp, pl, actions@) by {
                                assert(s1.routing_table == old(self).routing_table);
                                assert(s1.lease_store == old(self).lease_store);
                            }
                        }
                        actions
                    },
                    PacketType::OnionRequest => {
                        proof {
                            assert(body@.len() < raw@.len());
                        }
                        let actions = self.handle_onion(addr, body, now);
                        proof {
                            assert(s1.keypair == old(self).keypair);
                            assert(tables_unchanged(s1, *self) ==> tables_unchanged(*old(self), *self));
                            assert(rate_counted(*old(self), s1, addr, now));
                            assert forall|f: Vec<u8>, pt: Seq<u8>, p: OnionPacket| #[trigger] packet_wire(p).is_prefix_of(body@) && packet_writable(p)
                                && chacha20poly1305_open(hop_key(old(self).keypair.private@, p.ephemeral_pk@), p.nonce@, p.payload@,
                                    Seq::<u8>::empty()) == Some(pt)
                                && #[trigger] command_wire(OnionCommand::Deliver { final_payload: f }).is_prefix_of(pt)
                                implies exists|mid: NodeCore| #[trigger] rate_counted(*old(self), mid, addr, now)
                                    && packet_outcome(mid, *self, addr, f@, now, actions@) by {
                                assert(packet_outcome(s1, *self, addr, f@, now, actions@));
                            }
                        }
                        actions
                    },
                    PacketType::OffloadStore => self.handle_offload_store(body, now),
                    PacketType::OffloadRetrieve => self.handle_offload_retrieve(addr, body, now),
                    _ => Vec::new(),
                }
            },
        }
    }
}

} // verus!
