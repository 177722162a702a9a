//! The byte format of DHT packets and their payloads.
use vstd::prelude::*;
use crate::bytes::{array32_at, lemma_u64_le_injective, u64_from_le_slice, u64_le, u64_to_le_bytes};
use crate::dht::node::{DhtPublicKey, LeaseSet, NodeInfo};
use crate::dht::packet::{DhtPacket, DhtPayload};
use crate::wire::{
    as_received, bytes_wire, copy_range, lemma_node_wire_shape, lemma_node_wire_unique, lemma_prefix_at, lemma_prefix_parts, node_wire, push_bytes,
    push_node, push_tag, read_node, tag_wire,
};

verus! {

/// The bytes of a run of nodes, one after another.
pub open spec fn nodes_wire(s: Seq<NodeInfo>) -> Seq<u8>
    decreases s.len(),
{
    if s.len() == 0 {
        Seq::empty()
    } else {
        nodes_wire(s.drop_last()) + node_wire(s.last())
    }
}

/// The bytes of a vector of nodes: its length, then the nodes.
pub open spec fn node_list_wire(s: Seq<NodeInfo>) -> Seq<u8> {
    u64_le(s.len() as u64) + nodes_wire(s)
}

/// No node of the run carries a time of last sighting (as after receipt).
pub open spec fn nodes_received(s: Seq<NodeInfo>) -> bool {
    forall|i: int| 0 <= i < s.len() ==> (#[trigger] s[i]).last_seen is None
}

/// The bytes of a lease set.
pub open spec fn lease_wire(l: LeaseSet) -> Seq<u8> {
    l.dht_pk.0@ + node_list_wire(l.gateways@) + u64_le(l.expiration)
}

/// The bytes of a DHT payload.
pub open spec fn payload_wire(p: DhtPayload) -> Seq<u8> {
    match p {
        DhtPayload::PingRequest => tag_wire(0),
        DhtPayload::PingResponse => tag_wire(1),
        DhtPayload::FindNodeRequest { target_pk } => tag_wire(2) + target_pk.0@,
        DhtPayload::FindNodeResponse { nodes } => tag_wire(3) + node_list_wire(nodes@),
        DhtPayload::AnnouncePeer { announce_key } => tag_wire(4) + announce_key.0@,
        DhtPayload::StoreLeaseRequest { lease } => tag_wire(5) + lease_wire(lease),
        DhtPayload::GetLeaseRequest { target_pk } => tag_wire(6) + target_pk.0@,
        DhtPayload::GetLeaseResponse { lease } => tag_wire(7) + match lease {
            None => seq![0u8],
            Some(l) => seq![1u8] + lease_wire(l),
        },
    }
}

/// The nodes of the payload carry no time of last sighting.
pub open spec fn payload_received(p: DhtPayload) -> bool {
    match p {
        DhtPayload::FindNodeResponse { nodes } => nodes_received(nodes@),
        DhtPayload::StoreLeaseRequest { lease } => nodes_received(lease.gateways@),
        DhtPayload::GetLeaseResponse { lease } => lease matches Some(l) ==> nodes_received(l.gateways@),
        _ => true,
    }
}

/// The bytes of a DHT packet.
pub open spec fn dht_packet_wire(p: DhtPacket) -> Seq<u8> {
    p.sender_pk.0@ + p.nonce@ + p.request_id@ + bytes_wire(p.encrypted_payload@)
}

proof fn lemma_nodes_wire_single(x: NodeInfo)
    ensures
        nodes_wire(seq![x]) == node_wire(x),
{
    let s = seq![x];
    assert(s.drop_last() =~= Seq::<NodeInfo>::empty());
    assert(s.last() == x);
    assert(nodes_wire(Seq::<NodeInfo>::empty()) =~= Seq::<u8>::empty());
    assert(nodes_wire(s) =~= node_wire(x));
}

proof fn lemma_nodes_wire_concat(a: Seq<NodeInfo>, b: Seq<NodeInfo>)
    ensures
        nodes_wire(a + b) == nodes_wire(a) + nodes_wire(b),
    decreases b.len(),
{
    if b.len() == 0 {
        assert(a + b =~= a);
        assert(nodes_wire(a) + nodes_wire(b) =~= nodes_wire(a));
    } else {
        lemma_nodes_wire_concat(a, b.drop_last());
        assert((a + b).drop_last() =~= a + b.drop_last());
        assert(nodes_wire(a + b) =~= nodes_wire(a) + nodes_wire(b));
    }
}

// ---------------------------------------------------------------------
// Writing

fn push_nodes(out: &mut Vec<u8>, nodes: &Vec<NodeInfo>)
    ensures
        final(out)@ == old(out)@ + node_list_wire(nodes@),
{
    let n = u64_to_le_bytes(nodes.len() as u64);
    out.extend_from_slice(&n);
    let ghost start = out@;
    let mut i: usize = 0;
    while i < nodes.len()
        invariant
            i <= nodes@.len(),
            out@ == start + nodes_wire(nodes@.take(i as int)),
        decreases nodes@.len() - i,
    {
        push_node(out, &nodes[i]);
        proof {
            assert(nodes@.take(i + 1).drop_last() =~= nodes@.take(i as int));
            assert(out@ =~= start + nodes_wire(nodes@.take(i + 1)));
        }
        i = i + 1;
    }
    assert(nodes@.take(nodes@.len() as int) =~= nodes@);
    assert(final(out)@ =~= old(out)@ + node_list_wire(nodes@));
}

fn push_lease(out: &mut Vec<u8>, l: &LeaseSet)
    ensures
        final(out)@ == old(out)@ + lease_wire(*l),
{
    out.extend_from_slice(&l.dht_pk.0);
    push_nodes(out, &l.gateways);
    let e = u64_to_le_bytes(l.expiration);
    out.extend_from_slice(&e);
    assert(final(out)@ =~= old(out)@ + lease_wire(*l));
}

/// Serialises a DHT payload.
pub fn encode_payload(p: &DhtPayload) -> (out: Vec<u8>)
    ensures
        out@ == payload_wire(*p),
{
    let mut out: Vec<u8> = Vec::new();
    match p {
        DhtPayload::PingRequest => push_tag(&mut out, 0),
        DhtPayload::PingResponse => push_tag(&mut out, 1),
        DhtPayload::FindNodeRequest { target_pk } => {
            push_tag(&mut out, 2);
            out.extend_from_slice(&target_pk.0);
        },
        DhtPayload::FindNodeResponse { nodes } => {
            push_tag(&mut out, 3);
            push_nodes(&mut out, nodes);
        },
        DhtPayload::AnnouncePeer { announce_key } => {
            push_tag(&mut out, 4);
            out.extend_from_slice(&announce_key.0);
        },
        DhtPayload::StoreLeaseRequest { lease } => {
            push_tag(&mut out, 5);
            push_lease(&mut out, lease);
        },
        DhtPayload::GetLeaseRequest { target_pk } => {
            push_tag(&mut out, 6);
            out.extend_from_slice(&target_pk.0);
        },
        DhtPayload::GetLeaseResponse { lease } => {
            push_tag(&mut out, 7);
            match lease {
                None => out.push(0),
                Some(l) => {
                    out.push(1);
                    push_lease(&mut out, l);
                },
            }
        },
    }
    assert(out@ =~= payload_wire(*p));
    out
}

/// Serialises a DHT packet.
pub fn encode_dht_packet(p: &DhtPacket) -> (out: Vec<u8>)
    ensures
        out@ == dht_packet_wire(*p),
{
    let mut out: Vec<u8> = Vec::new();
    out.extend_from_slice(&p.sender_pk.0);
    out.extend_from_slice(&p.nonce);
    out.extend_from_slice(&p.request_id);
    push_bytes(&mut out, p.encrypted_payload.as_slice());
    assert(out@ =~= dht_packet_wire(*p));
    out
}

// ---------------------------------------------------------------------
// Reading

/// Reads `count` nodes at `pos`. `None` exactly when no run of `count`
/// nodes' bytes begins there.
fn read_nodes(s: &[u8], pos: usize, count: u64) -> (r: Option<(Vec<NodeInfo>, usize)>)
    requires
        pos <= s@.len(),
    ensures
        match r {
            Some((v, end)) => pos <= end <= s@.len() && s@.subrange(pos as int, end as int) == nodes_wire(v@)
                && v@.len() == count && nodes_received(v@),
            None => forall|l: Seq<NodeInfo>| l.len() == count ==> !(#[trigger] nodes_wire(l)).is_prefix_of(s@.skip(pos as int)),
        },
{
    let mut v: Vec<NodeInfo> = Vec::new();
    let mut at = pos;
    let mut i: u64 = 0;
    while i < count
        invariant
            pos <= at <= s@.len(),
            i <= count,
            v@.len() == i,
            nodes_received(v@),
            s@.subrange(pos as int, at as int) == nodes_wire(v@),
            forall|l: Seq<NodeInfo>| l.len() == count && (#[trigger] nodes_wire(l)).is_prefix_of(s@.skip(pos as int))
                ==> nodes_wire(l.take(i as int)) == nodes_wire(v@),
        decreases count - i,
    {
        match read_node(s, at) {
            None => {
                proof {
                    assert forall|l: Seq<NodeInfo>| l.len() == count implies !(#[trigger] nodes_wire(l)).is_prefix_of(s@.skip(pos as int)) by {
                        if nodes_wire(l).is_prefix_of(s@.skip(pos as int)) {
                            let a = l.take(i as int);
                            let b = l.skip(i as int);
                            assert(l =~= a + b);
                            lemma_nodes_wire_concat(a, b);
                            assert(b =~= seq![b[0]] + b.skip(1));
                            lemma_nodes_wire_concat(seq![b[0]], b.skip(1));
                            lemma_nodes_wire_single(b[0]);
                            let k = nodes_wire(a).len();
                            assert(k == at - pos);
                            assert forall|j: int| 0 <= j < node_wire(b[0]).len() implies node_wire(b[0])[j] == s@.skip(at as int)[j] by {
                                assert(nodes_wire(l)[k + j] == s@.skip(pos as int)[k + j]);
                            }
                            assert(node_wire(b[0]) =~= s@.skip(at as int).subrange(0, node_wire(b[0]).len() as int));
                            assert(node_wire(b[0]).is_prefix_of(s@.skip(at as int)));
                        }
                    }
                }
                return None;
            },
            Some((n, end)) => {
                proof {
                    assert forall|l: Seq<NodeInfo>| l.len() == count && (#[trigger] nodes_wire(l)).is_prefix_of(s@.skip(pos as int))
                        implies nodes_wire(l.take(i + 1)) == nodes_wire(v@.push(n)) by {
                        let a = l.take(i as int);
                        let b = l.skip(i as int);
                        assert(l =~= a + b);
                        lemma_nodes_wire_concat(a, b);
                        assert(b =~= seq![b[0]] + b.skip(1));
                        lemma_nodes_wire_concat(seq![b[0]], b.skip(1));
                        lemma_nodes_wire_single(b[0]);
                        let k = nodes_wire(a).len();
                        assert(k == at - pos);
                        assert forall|j: int| 0 <= j < node_wire(b[0]).len() implies node_wire(b[0])[j] == s@.skip(at as int)[j] by {
                            assert(nodes_wire(l)[k + j] == s@.skip(pos as int)[k + j]);
                        }
                        assert(node_wire(b[0]) =~= s@.skip(at as int).subrange(0, node_wire(b[0]).len() as int));
                        assert(node_wire(as_received(b[0])) == node_wire(b[0]));
                        assert(s@.skip(at as int).subrange(0, (end - at) as int) =~= s@.subrange(at as int, end as int));
                        lemma_node_wire_unique(as_received(b[0]), n, s@.skip(at as int));
                        assert(l.take(i + 1).drop_last() =~= a);
                        assert(l.take(i + 1).last() == b[0]);
                        assert(v@.push(n).drop_last() =~= v@);
                    }
                }
                let ghost old_v = v@;
                v.push(n);
                proof {
                    assert(v@.drop_last() =~= old_v);
                    assert(s@.subrange(pos as int, end as int) =~= s@.subrange(pos as int, at as int) + s@.subrange(at as int, end as int));
                }
                at = end;
                i = i + 1;
            },
        }
    }
    proof {
        assert forall|l: Seq<NodeInfo>| l.len() == count && (#[trigger] nodes_wire(l)).is_prefix_of(s@.skip(pos as int))
            implies nodes_wire(l.take(i as int)) == nodes_wire(v@) by {}
    }
    Some((v, at))
}

/// Reads a vector of nodes at `pos`. `None` exactly when no vector's bytes
/// begin there.
fn read_node_list(s: &[u8], pos: usize) -> (r: Option<(Vec<NodeInfo>, usize)>)
    requires
        pos <= s@.len(),
    ensures
        match r {
            Some((v, end)) => pos <= end <= s@.len() && s@.subrange(pos as int, end as int) == node_list_wire(v@)
                && nodes_received(v@) && v@.len() <= u64::MAX,
            None => forall|l: Seq<NodeInfo>| l.len() <= u64::MAX ==> !(#[trigger] node_list_wire(l)).is_prefix_of(s@.skip(pos as int)),
        },
{
    if s.len() - pos < 8 {
        return None;
    }
    let count = u64_from_le_slice(s, pos);
    match read_nodes(s, pos + 8, count) {
        None => {
            proof {
                assert forall|l: Seq<NodeInfo>| l.len() <= u64::MAX implies !(#[trigger] node_list_wire(l)).is_prefix_of(s@.skip(pos as int)) by {
                    if node_list_wire(l).is_prefix_of(s@.skip(pos as int)) {
                        lemma_prefix_parts(u64_le(l.len() as u64), nodes_wire(l), s@.skip(pos as int));
                        assert(s@.skip(pos as int).subrange(0, 8) =~= s@.subrange(pos as int, pos + 8));
                        lemma_u64_le_injective(count, l.len() as u64);
                        assert(s@.skip(pos as int).skip(8) =~= s@.skip(pos + 8));
                    }
                }
            }
            None
        },
        Some((v, end)) => {
            proof {
                assert(s@.subrange(pos as int, end as int) =~= s@.subrange(pos as int, pos + 8) + s@.subrange(pos + 8, end as int));
            }
            Some((v, end))
        },
    }
}

/// Reads a lease set at `pos`. `None` exactly when no lease set's bytes
/// begin there.
fn read_lease(s: &[u8], pos: usize) -> (r: Option<(LeaseSet, usize)>)
    requires
        pos <= s@.len(),
    ensures
        match r {
            Some((l, end)) => pos <= end <= s@.len() && s@.subrange(pos as int, end as int) == lease_wire(l)
                && nodes_received(l.gateways@) && l.gateways@.len() <= u64::MAX,
            None => forall|l: LeaseSet| l.gateways@.len() <= u64::MAX ==> !(#[trigger] lease_wire(l)).is_prefix_of(s@.skip(pos as int)),
        },
{
    if s.len() - pos < 32 {
        return None;
    }
    let pk = array32_at(s, pos);
    match read_node_list(s, pos + 32) {
        None => {
            proof {
                assert forall|l: LeaseSet| l.gateways@.len() <= u64::MAX implies !(#[trigger] lease_wire(l)).is_prefix_of(s@.skip(pos as int)) by {
                    if lease_wire(l).is_prefix_of(s@.skip(pos as int)) {
                        assert(lease_wire(l) =~= l.dht_pk.0@ + (node_list_wire(l.gateways@) + u64_le(l.expiration)));
                        lemma_prefix_parts(l.dht_pk.0@, node_list_wire(l.gateways@) + u64_le(l.expiration), s@.skip(pos as int));
                        lemma_prefix_parts(node_list_wire(l.gateways@), u64_le(l.expiration), s@.skip(pos as int).skip(32));
                        assert(s@.skip(pos as int).skip(32) =~= s@.skip(pos + 32));
                    }
                }
            }
            None
        },
        Some((gateways, at)) => {
            if s.len() - at < 8 {
                proof {
                    assert forall|l: LeaseSet| l.gateways@.len() <= u64::MAX implies !(#[trigger] lease_wire(l)).is_prefix_of(s@.skip(pos as int)) by {
                        if lease_wire(l).is_prefix_of(s@.skip(pos as int)) {
                            assert(lease_wire(l) =~= l.dht_pk.0@ + (node_list_wire(l.gateways@) + u64_le(l.expiration)));
                            lemma_prefix_parts(l.dht_pk.0@, node_list_wire(l.gateways@) + u64_le(l.expiration), s@.skip(pos as int));
                            lemma_prefix_parts(node_list_wire(l.gateways@), u64_le(l.expiration), s@.skip(pos as int).skip(32));
                            assert(s@.skip(pos as int).skip(32) =~= s@.skip(pos + 32));
                            lemma_prefix_at(node_list_wire(gateways@), s@, pos + 32, at as int);
                            lemma_node_list_unique(l.gateways@, gateways@, s@.skip(pos + 32));
                        }
                    }
                }
                return None;
            }
            let expiration = u64_from_le_slice(s, at);
            let l = LeaseSet { dht_pk: DhtPublicKey(pk), gateways, expiration };
            proof {
                assert(s@.subrange(pos as int, at + 8) =~= s@.subrange(pos as int, pos + 32) + s@.subrange(pos + 32, at as int)
                    + s@.subrange(at as int, at + 8));
            }
            Some((l, at + 8))
        },
    }
}

/// Two vectors of nodes whose bytes both begin `s` have the same bytes.
proof fn lemma_node_list_unique(a: Seq<NodeInfo>, b: Seq<NodeInfo>, s: Seq<u8>)
    requires
        node_list_wire(a).is_prefix_of(s),
        node_list_wire(b).is_prefix_of(s),
        a.len() <= u64::MAX,
        b.len() <= u64::MAX,
    ensures
        node_list_wire(a).len() == node_list_wire(b).len(),
{
    lemma_prefix_parts(u64_le(a.len() as u64), nodes_wire(a), s);
    lemma_prefix_parts(u64_le(b.len() as u64), nodes_wire(b), s);
    assert(u64_le(a.len() as u64) =~= s.subrange(0, 8));
    assert(u64_le(b.len() as u64) =~= s.subrange(0, 8));
    lemma_u64_le_injective(a.len() as u64, b.len() as u64);
    lemma_nodes_unique(a, b, s.skip(8));
}

/// Two runs of equally many nodes whose bytes both begin `s` have the same bytes.
proof fn lemma_nodes_unique(a: Seq<NodeInfo>, b: Seq<NodeInfo>, s: Seq<u8>)
    requires
        nodes_wire(a).is_prefix_of(s),
        nodes_wire(b).is_prefix_of(s),
        a.len() == b.len(),
    ensures
        nodes_wire(a) == nodes_wire(b),
    decreases a.len(),
{
    if a.len() > 0 {
        let a1 = a.skip(1);
        let b1 = b.skip(1);
        assert(a =~= seq![a[0]] + a1);
        assert(b =~= seq![b[0]] + b1);
        lemma_nodes_wire_concat(seq![a[0]], a1);
        lemma_nodes_wire_concat(seq![b[0]], b1);
        lemma_nodes_wire_single(a[0]);
        lemma_nodes_wire_single(b[0]);
        lemma_prefix_parts(node_wire(a[0]), nodes_wire(a1), s);
        lemma_prefix_parts(node_wire(b[0]), nodes_wire(b1), s);
        assert(node_wire(as_received(a[0])) == node_wire(a[0]));
        assert(node_wire(as_received(b[0])) == node_wire(b[0]));
        lemma_node_wire_unique(as_received(a[0]), as_received(b[0]), s);
        lemma_nodes_unique(a1, b1, s.skip(node_wire(a[0]).len() as int));
    } else {
        assert(nodes_wire(a) =~= Seq::<u8>::empty());
        assert(nodes_wire(b) =~= Seq::<u8>::empty());
    }
}

/// The variant index of a payload.
pub open spec fn payload_tag(p: DhtPayload) -> u8 {
    match p {
        DhtPayload::PingRequest => 0,
        DhtPayload::PingResponse => 1,
        DhtPayload::FindNodeRequest { .. } => 2,
        DhtPayload::FindNodeResponse { .. } => 3,
        DhtPayload::AnnouncePeer { .. } => 4,
        DhtPayload::StoreLeaseRequest { .. } => 5,
        DhtPayload::GetLeaseRequest { .. } => 6,
        DhtPayload::GetLeaseResponse { .. } => 7,
    }
}

/// Every vector in the payload has a length below 2^64.
pub open spec fn payload_writable(p: DhtPayload) -> bool {
    match p {
        DhtPayload::FindNodeResponse { nodes } => nodes@.len() <= u64::MAX,
        DhtPayload::StoreLeaseRequest { lease } => lease.gateways@.len() <= u64::MAX,
        DhtPayload::GetLeaseResponse { lease } => lease matches Some(l) ==> l.gateways@.len() <= u64::MAX,
        _ => true,
    }
}

/// The bytes after a payload's variant index.
pub open spec fn payload_body(p: DhtPayload) -> Seq<u8> {
    match p {
        DhtPayload::PingRequest => Seq::empty(),
        DhtPayload::PingResponse => Seq::empty(),
        DhtPayload::FindNodeRequest { target_pk } => target_pk.0@,
        DhtPayload::FindNodeResponse { nodes } => node_list_wire(nodes@),
        DhtPayload::AnnouncePeer { announce_key } => announce_key.0@,
        DhtPayload::StoreLeaseRequest { lease } => lease_wire(lease),
        DhtPayload::GetLeaseRequest { target_pk } => target_pk.0@,
        DhtPayload::GetLeaseResponse { lease } => match lease {
            None => seq![0u8],
            Some(l) => seq![1u8] + lease_wire(l),
        },
    }
}

proof fn lemma_payload_split(p: DhtPayload, s: Seq<u8>)
    requires
        payload_wire(p).is_prefix_of(s),
    ensures
        payload_wire(p) == tag_wire(payload_tag(p)) + payload_body(p),
        s.len() >= 4,
        s[0] == payload_tag(p) && s[1] == 0 && s[2] == 0 && s[3] == 0,
        payload_body(p).is_prefix_of(s.skip(4)),
{
    assert(payload_wire(p) =~= tag_wire(payload_tag(p)) + payload_body(p));
    lemma_prefix_parts(tag_wire(payload_tag(p)), payload_body(p), s);
    assert(tag_wire(payload_tag(p))[0] == s[0]);
    assert(tag_wire(payload_tag(p))[1] == s[1]);
    assert(tag_wire(payload_tag(p))[2] == s[2]);
    assert(tag_wire(payload_tag(p))[3] == s[3]);
}

/// Reads a DHT payload at the start of `s`. `None` exactly when `s` does
/// not begin with a payload's bytes; bytes after it are ignored.
pub fn decode_payload(s: &[u8]) -> (r: Option<DhtPayload>)
    ensures
        match r {
            Some(p) => payload_wire(p).is_prefix_of(s@) && payload_received(p) && payload_writable(p),
            None => forall|p: DhtPayload| payload_writable(p) ==> !(#[trigger] payload_wire(p)).is_prefix_of(s@),
        },
{
    if s.len() < 4 || s[1] != 0 || s[2] != 0 || s[3] != 0 || s[0] > 7 {
        proof {
            assert forall|p: DhtPayload| payload_writable(p) implies !(#[trigger] payload_wire(p)).is_prefix_of(s@) by {
                if payload_wire(p).is_prefix_of(s@) {
                    lemma_payload_split(p, s@);
                }
            }
        }
        return None;
    }
    let tag = s[0];
    let ghost body = s@.skip(4);
    proof {
        assert(s@.subrange(0, 4) =~= tag_wire(tag));
    }
    if tag == 0 || tag == 1 {
        let p = if tag == 0 { DhtPayload::PingRequest } else { DhtPayload::PingResponse };
        proof {
            assert(payload_wire(p) =~= s@.subrange(0, 4));
        }
        return Some(p);
    }
    if tag == 2 || tag == 4 || tag == 6 {
        if s.len() < 36 {
            proof {
                assert forall|p: DhtPayload| payload_writable(p) implies !(#[trigger] payload_wire(p)).is_prefix_of(s@) by {
                    if payload_wire(p).is_prefix_of(s@) {
                        lemma_payload_split(p, s@);
                    }
                }
            }
            return None;
        }
        let key = DhtPublicKey(array32_at(s, 4));
        let p = if tag == 2 {
            DhtPayload::FindNodeRequest { target_pk: key }
        } else if tag == 4 {
            DhtPayload::AnnouncePeer { announce_key: key }
        } else {
            DhtPayload::GetLeaseRequest { target_pk: key }
        };
        proof {
            assert(payload_wire(p) =~= s@.subrange(0, 36));
        }
        return Some(p);
    }
    if tag == 3 {
        return match read_node_list(s, 4) {
            None => {
                proof {
                    assert forall|p: DhtPayload| payload_writable(p) implies !(#[trigger] payload_wire(p)).is_prefix_of(s@) by {
                        if payload_wire(p).is_prefix_of(s@) {
                            lemma_payload_split(p, s@);
                        }
                    }
                }
                None
            },
            Some((nodes, end)) => {
                let p = DhtPayload::FindNodeResponse { nodes };
                proof {
                    assert(payload_wire(p) =~= s@.subrange(0, end as int));
                }
                Some(p)
            },
        };
    }
    if tag == 5 {
        return match read_lease(s, 4) {
            None => {
                proof {
                    assert forall|p: DhtPayload| payload_writable(p) implies !(#[trigger] payload_wire(p)).is_prefix_of(s@) by {
                        if payload_wire(p).is_prefix_of(s@) {
                            lemma_payload_split(p, s@);
                        }
                    }
                }
                None
            },
            Some((lease, end)) => {
                let p = DhtPayload::StoreLeaseRequest { lease };
                proof {
                    assert(payload_wire(p) =~= s@.subrange(0, end as int));
                }
                Some(p)
            },
        };
    }
    if s.len() < 5 || s[4] > 1 {
        proof {
            assert forall|p: DhtPayload| payload_writable(p) implies !(#[trigger] payload_wire(p)).is_prefix_of(s@) by {
                if payload_wire(p).is_prefix_of(s@) {
                    lemma_payload_split(p, s@);
                    assert(payload_body(p)[0] == body[0]);
                }
            }
        }
        return None;
    }
    if s[4] == 0 {
        let p = DhtPayload::GetLeaseResponse { lease: None };
        proof {
            assert(payload_wire(p) =~= s@.subrange(0, 5));
        }
        return Some(p);
    }
    match read_lease(s, 5) {
        None => {
            proof {
                assert forall|p: DhtPayload| payload_writable(p) implies !(#[trigger] payload_wire(p)).is_prefix_of(s@) by {
                    if payload_wire(p).is_prefix_of(s@) {
                        lemma_payload_split(p, s@);
                        assert(payload_body(p)[0] == body[0]);
                        match p {
                            DhtPayload::GetLeaseResponse { lease } => {
                                match lease {
                                    Some(l) => {
                                        lemma_prefix_parts(seq![1u8], lease_wire(l), body);
                                        assert(body.skip(1) =~= s@.skip(5));
                                    },
                                    None => {},
                                }
                            },
                            _ => {},
                        }
                    }
                }
            }
            None
        },
        Some((lease, end)) => {
            let p = DhtPayload::GetLeaseResponse { lease: Some(lease) };
            proof {
                assert(payload_wire(p) =~= s@.subrange(0, end as int));
            }
            Some(p)
        },
    }
}

/// Reads a DHT packet at the start of `s`. `None` exactly when `s` does not
/// begin with a packet's bytes; bytes after it are ignored.
pub fn decode_dht_packet(s: &[u8]) -> (r: Option<DhtPacket>)
    ensures
        match r {
            Some(p) => dht_packet_wire(p).is_prefix_of(s@) && p.encrypted_payload@.len() <= u64::MAX,
            None => forall|p: DhtPacket| !(#[trigger] dht_packet_wire(p)).is_prefix_of(s@),
        },
{
    if s.len() < 72 {
        proof {
            assert forall|p: DhtPacket| !(#[trigger] dht_packet_wire(p)).is_prefix_of(s@) by {}
        }
        return None;
    }
    let n = u64_from_le_slice(s, 64);
    if ((s.len() - 72) as u64) < n {
        proof {
            assert forall|p: DhtPacket| !(#[trigger] dht_packet_wire(p)).is_prefix_of(s@) by {
                if dht_packet_wire(p).is_prefix_of(s@) {
                    let w = dht_packet_wire(p);
                    assert(w.subrange(64, 72) =~= u64_le(p.encrypted_payload@.len() as u64));
                    assert(w.subrange(64, 72) =~= s@.subrange(64, 72));
                    lemma_u64_le_injective(n, p.encrypted_payload@.len() as u64);
                }
            }
        }
        return None;
    }
    let len = n as usize;
    let sender = array32_at(s, 0);
    let mut nonce = [0u8; 24];
    let mut k: usize = 0;
    while k < 24
        invariant
            k <= 24,
            s@.len() >= 72,
            nonce@.len() == 24,
            forall|j: int| 0 <= j < k ==> nonce@[j] == s@[32 + j],
        decreases 24 - k,
    {
        nonce[k] = s[32 + k];
        k = k + 1;
    }
    let mut request_id = [0u8; 8];
    let mut k: usize = 0;
    while k < 8
        invariant
            k <= 8,
            s@.len() >= 72,
            request_id@.len() == 8,
            forall|j: int| 0 <= j < k ==> request_id@[j] == s@[56 + j],
        decreases 8 - k,
    {
        request_id[k] = s[56 + k];
        k = k + 1;
    }
    let encrypted_payload = copy_range(s, 72, len);
    let p = DhtPacket { sender_pk: DhtPublicKey(sender), nonce, request_id, encrypted_payload };
    proof {
        assert(nonce@ =~= s@.subrange(32, 56));
        assert(request_id@ =~= s@.subrange(56, 64));
        assert(dht_packet_wire(p) =~= s@.subrange(0, 72 + len));
    }
    Some(p)
}

/// Two DHT packets whose bytes both begin `s` have the same sender and
/// payload.
pub proof fn lemma_dht_packet_unique(a: DhtPacket, b: DhtPacket, s: Seq<u8>)
    requires
        dht_packet_wire(a).is_prefix_of(s),
        dht_packet_wire(b).is_prefix_of(s),
        a.encrypted_payload@.len() <= u64::MAX,
        b.encrypted_payload@.len() <= u64::MAX,
    ensures
        a.sender_pk == b.sender_pk,
        a.encrypted_payload@ == b.encrypted_payload@,
{
    let wa = dht_packet_wire(a);
    let wb = dht_packet_wire(b);
    assert(wa.subrange(64, 72) =~= u64_le(a.encrypted_payload@.len() as u64));
    assert(wb.subrange(64, 72) =~= u64_le(b.encrypted_payload@.len() as u64));
    assert(wa.subrange(64, 72) =~= s.subrange(64, 72));
    assert(wb.subrange(64, 72) =~= s.subrange(64, 72));
    lemma_u64_le_injective(a.encrypted_payload@.len() as u64, b.encrypted_payload@.len() as u64);
    assert(wa.len() == wb.len());
    assert(wa =~= wb);
    assert(wa.subrange(0, 32) =~= a.sender_pk.0@);
    assert(wb.subrange(0, 32) =~= b.sender_pk.0@);
    assert(a.sender_pk.0 =~= b.sender_pk.0);
    assert(wa.subrange(72, wa.len() as int) =~= a.encrypted_payload@);
    assert(wb.subrange(72, wb.len() as int) =~= b.encrypted_payload@);
}

} // verus!
