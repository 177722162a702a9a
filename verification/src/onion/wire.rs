//! The byte format of onion packets and commands.
use vstd::prelude::*;
use crate::bytes::{lemma_u64_le_injective, u64_from_le_slice, u64_le, array12_at, array32_at};
use crate::dht::node::NodeInfo;
use crate::onion::packet::{OnionCommand, OnionPacket};
use crate::wire::{
    as_received, bytes_wire, copy_range, lemma_node_wire_unique, lemma_prefix_parts, node_wire, push_bytes, push_node,
    push_tag, read_node, tag_wire,
};

verus! {

pub open spec fn packet_wire(p: OnionPacket) -> Seq<u8> {
    p.ephemeral_pk@ + p.nonce@ + bytes_wire(p.payload@)
}

/// The bytes of an onion command.
pub open spec fn command_wire(c: OnionCommand) -> Seq<u8> {
    match c {
        OnionCommand::Forward { next_hop, packet } => tag_wire(0) + node_wire(next_hop) + packet_wire(packet),
        OnionCommand::Deliver { final_payload } => tag_wire(1) + bytes_wire(final_payload@),
    }
}

/// A node as it arrives: with no time of last sighting.
pub open spec fn command_received(c: OnionCommand) -> OnionCommand {
    match c {
        OnionCommand::Forward { next_hop, packet } => OnionCommand::Forward { next_hop: as_received(next_hop), packet },
        OnionCommand::Deliver { final_payload } => c,
    }
}

/// Every vector that can be written has a length below 2^64.
pub open spec fn packet_writable(p: OnionPacket) -> bool {
    p.payload@.len() <= u64::MAX
}

/// Every vector of the command has a length below 2^64.
pub open spec fn command_writable(c: OnionCommand) -> bool {
    match c {
        OnionCommand::Forward { next_hop, packet } => packet_writable(packet),
        OnionCommand::Deliver { final_payload } => final_payload@.len() <= u64::MAX,
    }
}

fn push_packet(out: &mut Vec<u8>, p: &OnionPacket)
    ensures
        final(out)@ == old(out)@ + packet_wire(*p),
{
    out.extend_from_slice(&p.ephemeral_pk);
    out.extend_from_slice(&p.nonce);
    push_bytes(out, p.payload.as_slice());
    assert(final(out)@ =~= old(out)@ + packet_wire(*p));
}

/// Serialises an onion packet.
pub fn encode_packet(p: &OnionPacket) -> (out: Vec<u8>)
    ensures
        out@ == packet_wire(*p),
{
    let mut out: Vec<u8> = Vec::new();
    push_packet(&mut out, p);
    assert(out@ =~= packet_wire(*p));
    out
}

/// Serialises an onion command.
pub fn encode_command(c: &OnionCommand) -> (out: Vec<u8>)
    ensures
        out@ == command_wire(*c),
{
    let mut out: Vec<u8> = Vec::new();
    match c {
        OnionCommand::Forward { next_hop, packet } => {
            push_tag(&mut out, 0);
            push_node(&mut out, next_hop);
            push_packet(&mut out, packet);
        },
        OnionCommand::Deliver { final_payload } => {
            push_tag(&mut out, 1);
            push_bytes(&mut out, final_payload.as_slice());
        },
    }
    assert(out@ =~= command_wire(*c));
    out
}


proof fn lemma_packet_wire_shape(p: OnionPacket)
    ensures
        packet_wire(p).len() == 52 + p.payload@.len(),
        packet_wire(p).subrange(0, 32) == p.ephemeral_pk@,
        packet_wire(p).subrange(32, 44) == p.nonce@,
        packet_wire(p).subrange(44, 52) == u64_le(p.payload@.len() as u64),
        packet_wire(p).subrange(52, 52 + p.payload@.len() as int) == p.payload@,
{
    let w = packet_wire(p);
    assert(w.subrange(0, 32) =~= p.ephemeral_pk@);
    assert(w.subrange(32, 44) =~= p.nonce@);
    assert(w.subrange(44, 52) =~= u64_le(p.payload@.len() as u64));
    assert(w.subrange(52, 52 + p.payload@.len() as int) =~= p.payload@);
}

/// Two packets whose bytes both begin `s` have the same bytes: the
/// packet format is prefix-free.
pub proof fn lemma_packet_wire_unique(a: OnionPacket, b: OnionPacket, s: Seq<u8>)
    requires
        packet_wire(a).is_prefix_of(s),
        packet_wire(b).is_prefix_of(s),
        packet_writable(a),
        packet_writable(b),
    ensures
        packet_wire(a) == packet_wire(b),
        a.ephemeral_pk == b.ephemeral_pk,
        a.nonce == b.nonce,
        a.payload@ == b.payload@,
{
    lemma_packet_wire_shape(a);
    lemma_packet_wire_shape(b);
    let wa = packet_wire(a);
    let wb = packet_wire(b);
    assert(wa.subrange(44, 52) == s.subrange(44, 52));
    assert(wb.subrange(44, 52) == s.subrange(44, 52));
    lemma_u64_le_injective(a.payload@.len() as u64, b.payload@.len() as u64);
    assert(wa.len() == wb.len());
    assert(wa =~= wb);
    assert(a.ephemeral_pk@ =~= b.ephemeral_pk@);
    assert(a.ephemeral_pk =~= b.ephemeral_pk);
    assert(a.nonce@ =~= b.nonce@);
    assert(a.nonce =~= b.nonce);
    assert(a.payload@ =~= b.payload@);
}

/// Reads a packet at `pos`. `None` exactly when no packet's bytes begin there.
pub fn read_packet(s: &[u8], pos: usize) -> (r: Option<(OnionPacket, usize)>)
    requires
        pos <= s@.len(),
    ensures
        match r {
            Some((p, end)) => pos <= end <= s@.len() && s@.subrange(pos as int, end as int) == packet_wire(p),
            None => forall|p: OnionPacket| !(#[trigger] packet_wire(p)).is_prefix_of(s@.skip(pos as int)),
        },
{
    let ghost rest = s@.skip(pos as int);
    if s.len() - pos < 52 {
        proof {
            assert forall|p: OnionPacket| !(#[trigger] packet_wire(p)).is_prefix_of(rest) by {
                lemma_packet_wire_shape(p);
            }
        }
        return None;
    }
    let n = u64_from_le_slice(s, pos + 44);
    if ((s.len() - pos - 52) as u64) < n {
        proof {
            assert forall|p: OnionPacket| !(#[trigger] packet_wire(p)).is_prefix_of(rest) by {
                lemma_packet_wire_shape(p);
                if packet_wire(p).is_prefix_of(rest) {
                    assert(packet_wire(p).subrange(44, 52) == rest.subrange(44, 52));
                    assert(rest.subrange(44, 52) =~= s@.subrange(pos + 44, pos + 52));
                    lemma_u64_le_injective(n, p.payload@.len() as u64);
                }
            }
        }
        return None;
    }
    let len = n as usize;
    let ephemeral_pk = array32_at(s, pos);
    let nonce = array12_at(s, pos + 32);
    let payload = copy_range(s, pos + 52, len);
    let p = OnionPacket { ephemeral_pk, nonce, payload };
    proof {
        lemma_packet_wire_shape(p);
        let w = packet_wire(p);
        let seg = s@.subrange(pos as int, pos + 52 + len);
        assert forall|k: int| 0 <= k < w.len() implies w[k] == seg[k] by {
            if k < 32 {
                assert(w.subrange(0, 32)[k] == seg[k]);
            } else if k < 44 {
                assert(w.subrange(32, 44)[k - 32] == seg[k]);
            } else if k < 52 {
                assert(w.subrange(44, 52)[k - 44] == seg[k]);
            } else {
                assert(w.subrange(52, 52 + len)[k - 52] == seg[k]);
            }
        }
        assert(w =~= seg);
    }
    Some((p, pos + 52 + len))
}

/// The parts of a forwarding command's bytes.
pub(crate) proof fn lemma_forward_prefix(h: NodeInfo, p: OnionPacket, s: Seq<u8>)
    requires
        command_wire(OnionCommand::Forward { next_hop: h, packet: p }).is_prefix_of(s),
    ensures
        s.len() >= 4 && s[0] == 0,
        node_wire(h).is_prefix_of(s.skip(4)),
        packet_wire(p).is_prefix_of(s.skip(4 + node_wire(h).len() as int)),
{
    assert(command_wire(OnionCommand::Forward { next_hop: h, packet: p }) =~= tag_wire(0) + (node_wire(h) + packet_wire(p)));
    lemma_prefix_parts(tag_wire(0), node_wire(h) + packet_wire(p), s);
    lemma_prefix_parts(node_wire(h), packet_wire(p), s.skip(4));
    assert(s.skip(4).skip(node_wire(h).len() as int) =~= s.skip(4 + node_wire(h).len() as int));
    assert(tag_wire(0)[0] == s[0]);
}

/// The first byte of a delivery command's bytes is 1.
pub(crate) proof fn lemma_deliver_prefix(f: Vec<u8>, s: Seq<u8>)
    requires
        command_wire(OnionCommand::Deliver { final_payload: f }).is_prefix_of(s),
    ensures
        s.len() >= 12 && s[0] == 1,
        s.subrange(4, 12) == u64_le(f@.len() as u64),
{
    let w = command_wire(OnionCommand::Deliver { final_payload: f });
    assert(w.subrange(4, 12) =~= u64_le(f@.len() as u64));
    assert(w.subrange(4, 12) =~= s.subrange(4, 12));
    assert(w[0] == s[0]);
}

/// Two commands whose bytes both begin `s` have the same bytes: the
/// command format is prefix-free.
pub proof fn lemma_command_wire_unique(a: OnionCommand, b: OnionCommand, s: Seq<u8>)
    requires
        command_wire(a).is_prefix_of(s),
        command_wire(b).is_prefix_of(s),
        command_writable(a),
        command_writable(b),
    ensures
        command_wire(a) == command_wire(b),
{
    assert(command_wire(a)[0] == s[0] && command_wire(b)[0] == s[0]);
    let s4 = s.skip(4);
    match (a, b) {
        (OnionCommand::Forward { next_hop: h1, packet: p1 }, OnionCommand::Forward { next_hop: h2, packet: p2 }) => {
            lemma_forward_prefix(h1, p1, s);
            lemma_forward_prefix(h2, p2, s);
            assert(node_wire(as_received(h1)) == node_wire(h1));
            assert(node_wire(as_received(h2)) == node_wire(h2));
            lemma_node_wire_unique(as_received(h1), as_received(h2), s4);
            let k = node_wire(h1).len();
            lemma_packet_wire_unique(p1, p2, s.skip(4 + k as int));
            assert(command_wire(a) =~= tag_wire(0) + (node_wire(h1) + packet_wire(p1)));
            assert(command_wire(b) =~= tag_wire(0) + (node_wire(h2) + packet_wire(p2)));
        },
        (OnionCommand::Deliver { final_payload: f1 }, OnionCommand::Deliver { final_payload: f2 }) => {
            lemma_deliver_prefix(f1, s);
            lemma_deliver_prefix(f2, s);
            lemma_u64_le_injective(f1@.len() as u64, f2@.len() as u64);
            assert(command_wire(a) =~= command_wire(b));
        },
        (OnionCommand::Forward { next_hop: h1, packet: p1 }, OnionCommand::Deliver { final_payload: f2 }) => {
            lemma_forward_prefix(h1, p1, s);
            lemma_deliver_prefix(f2, s);
        },
        (OnionCommand::Deliver { final_payload: f1 }, OnionCommand::Forward { next_hop: h2, packet: p2 }) => {
            lemma_forward_prefix(h2, p2, s);
            lemma_deliver_prefix(f1, s);
        },
    }
}

fn decode_forward(s: &[u8]) -> (r: Option<OnionCommand>)
    requires
        s@.len() >= 4,
        s@.subrange(0, 4) == tag_wire(0),
    ensures
        match r {
            Some(c) => command_wire(c).is_prefix_of(s@) && command_received(c) == c,
            None => forall|c: OnionCommand| !(#[trigger] command_wire(c)).is_prefix_of(s@),
        },
{
    let ghost s4 = s@.skip(4);
    match read_node(s, 4) {
        None => {
            proof {
                assert forall|c: OnionCommand| !(#[trigger] command_wire(c)).is_prefix_of(s@) by {
                    if command_wire(c).is_prefix_of(s@) {
                        assert(s@.subrange(0, 4)[0] == s@[0]);
                        match c {
                            OnionCommand::Forward { next_hop, packet } => {
                                lemma_forward_prefix(next_hop, packet, s@);
                            },
                            OnionCommand::Deliver { final_payload } => {
                                lemma_deliver_prefix(final_payload, s@);
                            },
                        }
                    }
                }
            }
            None
        },
        Some((next_hop, at)) => {
            proof {
                assert(s4.take(node_wire(next_hop).len() as int) =~= s@.subrange(4, at as int));
                assert(node_wire(next_hop).is_prefix_of(s4));
            }
            match read_packet(s, at) {
                None => {
                    proof {
                        assert forall|c: OnionCommand| !(#[trigger] command_wire(c)).is_prefix_of(s@) by {
                            if command_wire(c).is_prefix_of(s@) {
                                assert(s@.subrange(0, 4)[0] == s@[0]);
                                match c {
                                    OnionCommand::Forward { next_hop: h, packet } => {
                                        lemma_forward_prefix(h, packet, s@);
                                        assert(node_wire(as_received(h)) == node_wire(h));
                                        lemma_node_wire_unique(as_received(h), next_hop, s4);
                                        assert(at == 4 + node_wire(h).len());
                                    },
                                    OnionCommand::Deliver { final_payload } => {
                                        lemma_deliver_prefix(final_payload, s@);
                                    },
                                }
                            }
                        }
                    }
                    None
                },
                Some((packet, end)) => {
                    let c = OnionCommand::Forward { next_hop, packet };
                    proof {
                        assert(command_wire(c) =~= s@.subrange(0, end as int));
                    }
                    Some(c)
                },
            }
        },
    }
}

fn decode_deliver(s: &[u8]) -> (r: Option<OnionCommand>)
    requires
        s@.len() >= 4,
        s@.subrange(0, 4) == tag_wire(1),
    ensures
        match r {
            Some(c) => command_wire(c).is_prefix_of(s@) && command_received(c) == c,
            None => forall|c: OnionCommand| !(#[trigger] command_wire(c)).is_prefix_of(s@),
        },
{
    if s.len() < 12 {
        proof {
            assert forall|c: OnionCommand| !(#[trigger] command_wire(c)).is_prefix_of(s@) by {
                if command_wire(c).is_prefix_of(s@) {
                    match c {
                        OnionCommand::Forward { next_hop, packet } => {
                            assert(command_wire(c)[0] == 0);
                            assert(s@.subrange(0, 4)[0] == s@[0]);
                        },
                        OnionCommand::Deliver { final_payload } => {},
                    }
                }
            }
        }
        return None;
    }
    let n = u64_from_le_slice(s, 4);
    if ((s.len() - 12) as u64) < n {
        proof {
            assert forall|c: OnionCommand| !(#[trigger] command_wire(c)).is_prefix_of(s@) by {
                if command_wire(c).is_prefix_of(s@) {
                    match c {
                        OnionCommand::Forward { next_hop, packet } => {
                            assert(command_wire(c)[0] == 0);
                            assert(s@.subrange(0, 4)[0] == s@[0]);
                        },
                        OnionCommand::Deliver { final_payload } => {
                            assert(command_wire(c).subrange(4, 12) =~= u64_le(final_payload@.len() as u64));
                            assert(command_wire(c).subrange(4, 12) == s@.subrange(4, 12));
                            lemma_u64_le_injective(n, final_payload@.len() as u64);
                        },
                    }
                }
            }
        }
        return None;
    }
    let len = n as usize;
    let final_payload = copy_range(s, 12, len);
    let c = OnionCommand::Deliver { final_payload };
    proof {
        assert(s@.subrange(0, 4) =~= tag_wire(1));
        assert(command_wire(c) =~= s@.subrange(0, 12 + len));
    }
    Some(c)
}

/// Reads a command at the start of `s`. `None` exactly when `s` does not
/// begin with a command's bytes; bytes after the command are ignored.
pub fn decode_command(s: &[u8]) -> (r: Option<OnionCommand>)
    ensures
        match r {
            Some(c) => command_wire(c).is_prefix_of(s@) && command_received(c) == c,
            None => forall|c: OnionCommand| !(#[trigger] command_wire(c)).is_prefix_of(s@),
        },
{
    if s.len() < 4 || s[1] != 0 || s[2] != 0 || s[3] != 0 || s[0] > 1 {
        proof {
            assert forall|c: OnionCommand| !(#[trigger] command_wire(c)).is_prefix_of(s@) by {
                if command_wire(c).is_prefix_of(s@) {
                    match c {
                        OnionCommand::Forward { next_hop, packet } => {
                            assert(command_wire(c)[0] == 0 && command_wire(c)[1] == 0 && command_wire(c)[2] == 0 && command_wire(c)[3] == 0);
                        },
                        OnionCommand::Deliver { final_payload } => {
                            assert(command_wire(c)[0] == 1 && command_wire(c)[1] == 0 && command_wire(c)[2] == 0 && command_wire(c)[3] == 0);
                        },
                    }
                }
            }
        }
        return None;
    }
    if s[0] == 0 {
        assert(s@.subrange(0, 4) =~= tag_wire(0));
        decode_forward(s)
    } else {
        assert(s@.subrange(0, 4) =~= tag_wire(1));
        decode_deliver(s)
    }
}

/// Two forwarding commands whose bytes both begin `s` name the same next
/// hop (up to its time of last sighting) and carry packets with the same bytes.
pub proof fn lemma_forward_unique(h1: NodeInfo, q1: OnionPacket, h2: NodeInfo, q2: OnionPacket, s: Seq<u8>)
    requires
        command_wire(OnionCommand::Forward { next_hop: h1, packet: q1 }).is_prefix_of(s),
        command_wire(OnionCommand::Forward { next_hop: h2, packet: q2 }).is_prefix_of(s),
        packet_writable(q1),
        packet_writable(q2),
    ensures
        as_received(h1) == as_received(h2),
        packet_wire(q1) == packet_wire(q2),
{
    lemma_forward_prefix(h1, q1, s);
    lemma_forward_prefix(h2, q2, s);
    assert(node_wire(as_received(h1)) == node_wire(h1));
    assert(node_wire(as_received(h2)) == node_wire(h2));
    lemma_node_wire_unique(as_received(h1), as_received(h2), s.skip(4));
    lemma_packet_wire_unique(q1, q2, s.skip(4 + node_wire(h1).len() as int));
}

} // verus!
