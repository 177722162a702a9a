//! The byte format shared by the protocol's messages (that of `bincode` 1
//! with its default options): fixed-size arrays as their bytes, integers
//! little-endian, vectors as a 64-bit length then their items, enums as a
//! 32-bit variant index then their fields.
use vstd::prelude::*;
use crate::bytes::{array32_at, lemma_u64_le_injective, u64_from_le_slice, u64_le, u64_to_le_bytes};
use crate::dht::node::{DhtPublicKey, IpAddress, NodeInfo, SocketAddress};

verus! {

/// The two little-endian bytes of `n`.
pub open spec fn u16_le(n: u16) -> Seq<u8> {
    seq![(n & 0xff) as u8, (n >> 8u16) as u8]
}

/// A variant index as `bincode` writes it.
pub open spec fn tag_wire(i: u8) -> Seq<u8> {
    seq![i, 0u8, 0u8, 0u8]
}

/// The sixteen octets of an IPv6 address given as eight segments.
pub open spec fn v6_octets(s: Seq<u16>) -> Seq<u8> {
    Seq::new(16, |i: int| if i % 2 == 0 { (s[i / 2] >> 8u16) as u8 } else { (s[i / 2] & 0xff) as u8 })
}

/// The bytes of an IP address.
pub open spec fn ip_wire(ip: IpAddress) -> Seq<u8> {
    match ip {
        IpAddress::V4(o) => tag_wire(0) + o@,
        IpAddress::V6(s) => tag_wire(1) + v6_octets(s@),
    }
}

/// The bytes of a socket address.
pub open spec fn socket_wire(a: SocketAddress) -> Seq<u8> {
    ip_wire(a.ip) + u16_le(a.port)
}

/// The bytes of a node; when it was last seen is not sent.
pub open spec fn node_wire(n: NodeInfo) -> Seq<u8> {
    n.dht_pk.0@ + socket_wire(n.addr) + seq![n.reputation as u8, n.consecutive_failures]
}

/// The bytes of a byte vector: its length, then its contents.
pub open spec fn bytes_wire(v: Seq<u8>) -> Seq<u8> {
    u64_le(v.len() as u64) + v
}

/// The bytes of an onion packet.
pub open spec fn as_received(n: NodeInfo) -> NodeInfo {
    NodeInfo { last_seen: None, ..n }
}

/// A command as it arrives: a forwarded node has no time of last sighting.
// ---------------------------------------------------------------------
// Writing

pub fn push_u16(out: &mut Vec<u8>, n: u16)
    ensures
        final(out)@ == old(out)@ + u16_le(n),
{
    out.push((n & 0xff) as u8);
    out.push((n >> 8u16) as u8);
    assert(final(out)@ =~= old(out)@ + u16_le(n));
}

pub fn push_tag(out: &mut Vec<u8>, i: u8)
    ensures
        final(out)@ == old(out)@ + tag_wire(i),
{
    out.push(i);
    out.push(0);
    out.push(0);
    out.push(0);
    assert(final(out)@ =~= old(out)@ + tag_wire(i));
}

pub fn push_bytes(out: &mut Vec<u8>, v: &[u8])
    ensures
        final(out)@ == old(out)@ + bytes_wire(v@),
{
    let n = u64_to_le_bytes(v.len() as u64);
    out.extend_from_slice(&n);
    out.extend_from_slice(v);
    assert(final(out)@ =~= old(out)@ + bytes_wire(v@));
}

pub fn push_ip(out: &mut Vec<u8>, ip: &IpAddress)
    ensures
        final(out)@ == old(out)@ + ip_wire(*ip),
{
    match ip {
        IpAddress::V4(o) => {
            push_tag(out, 0);
            out.extend_from_slice(o);
            assert(final(out)@ =~= old(out)@ + ip_wire(*ip));
        },
        IpAddress::V6(s) => {
            push_tag(out, 1);
            let ghost mid = out@;
            let mut i: usize = 0;
            while i < 8
                invariant
                    i <= 8,
                    s@.len() == 8,
                    out@ == mid + v6_octets(s@).take(2 * i as int),
                decreases 8 - i,
            {
                out.push((s[i] >> 8u16) as u8);
                out.push((s[i] & 0xff) as u8);
                assert(out@ =~= mid + v6_octets(s@).take(2 * (i + 1) as int)) by {
                    assert((2 * i) / 2 == i as int);
                    assert((2 * i + 1) / 2 == i as int);
                    assert((2 * i) % 2 == 0);
                    assert((2 * i + 1) % 2 == 1);
                }
                i = i + 1;
            }
            assert(v6_octets(s@).take(16) =~= v6_octets(s@));
            assert(final(out)@ =~= old(out)@ + ip_wire(*ip));
        },
    }
}

pub fn push_node(out: &mut Vec<u8>, n: &NodeInfo)
    ensures
        final(out)@ == old(out)@ + node_wire(*n),
{
    out.extend_from_slice(&n.dht_pk.0);
    push_ip(out, &n.addr.ip);
    push_u16(out, n.addr.port);
    out.push(n.reputation as u8);
    out.push(n.consecutive_failures);
    assert(final(out)@ =~= old(out)@ + node_wire(*n));
}

// ---------------------------------------------------------------------
// Reading

pub proof fn lemma_u16_le_injective(a: u16, b: u16)
    requires
        u16_le(a) == u16_le(b),
    ensures
        a == b,
{
    assert(u16_le(a)[0] == u16_le(b)[0] && u16_le(a)[1] == u16_le(b)[1]);
    assert((a & 0xff) as u8 == (b & 0xff) as u8 && (a >> 8u16) as u8 == (b >> 8u16) as u8 ==> a == b) by (bit_vector);
}

proof fn lemma_i8_byte_injective(a: i8, b: i8)
    requires
        a as u8 == b as u8,
    ensures
        a == b,
{
    assert(a as u8 == b as u8 ==> a == b) by (bit_vector);
}

proof fn lemma_v6_octets_at(s: Seq<u16>, j: int)
    requires
        0 <= j < 8,
    ensures
        v6_octets(s)[2 * j] == (s[j] >> 8u16) as u8,
        v6_octets(s)[2 * j + 1] == (s[j] & 0xff) as u8,
{
    assert((2 * j) / 2 == j && (2 * j) % 2 == 0);
    assert((2 * j + 1) / 2 == j && (2 * j + 1) % 2 == 1);
}

proof fn lemma_v6_injective(a: [u16; 8], b: [u16; 8])
    requires
        v6_octets(a@) == v6_octets(b@),
    ensures
        a == b,
{
    assert forall|i: int| 0 <= i < 8 implies a@[i] == b@[i] by {
        let x = a@[i];
        let y = b@[i];
        lemma_v6_octets_at(a@, i);
        lemma_v6_octets_at(b@, i);
        assert(v6_octets(a@)[2 * i] == v6_octets(b@)[2 * i]);
        assert(v6_octets(a@)[2 * i + 1] == v6_octets(b@)[2 * i + 1]);
        assert((x >> 8u16) as u8 == (y >> 8u16) as u8);
        assert((x & 0xff) as u8 == (y & 0xff) as u8);
        assert(x == y) by (bit_vector)
            requires
                (x >> 8u16) as u8 == (y >> 8u16) as u8,
                (x & 0xff) as u8 == (y & 0xff) as u8,
        ;
    }
    assert(a =~= b);
}

/// The length of a node's bytes and where its fields lie.
pub proof fn lemma_node_wire_shape(n: NodeInfo)
    ensures
        node_wire(n).len() == (if n.addr.ip is V4 { 44int } else { 56int }),
        node_wire(n).subrange(0, 32) == n.dht_pk.0@,
        node_wire(n).subrange(32, 36) == tag_wire(if n.addr.ip is V4 { 0u8 } else { 1u8 }),
        n.addr.ip matches IpAddress::V4(o) ==> node_wire(n).subrange(36, 40) == o@
            && node_wire(n).subrange(40, 42) == u16_le(n.addr.port)
            && node_wire(n)[42] == n.reputation as u8 && node_wire(n)[43] == n.consecutive_failures,
        n.addr.ip matches IpAddress::V6(g) ==> node_wire(n).subrange(36, 52) == v6_octets(g@)
            && node_wire(n).subrange(52, 54) == u16_le(n.addr.port)
            && node_wire(n)[54] == n.reputation as u8 && node_wire(n)[55] == n.consecutive_failures,
{
    let w = node_wire(n);
    match n.addr.ip {
        IpAddress::V4(o) => {
            assert(w.subrange(0, 32) =~= n.dht_pk.0@);
            assert(w.subrange(32, 36) =~= tag_wire(0));
            assert(w.subrange(36, 40) =~= o@);
            assert(w.subrange(40, 42) =~= u16_le(n.addr.port));
        },
        IpAddress::V6(g) => {
            assert(w.subrange(0, 32) =~= n.dht_pk.0@);
            assert(w.subrange(32, 36) =~= tag_wire(1));
            assert(w.subrange(36, 52) =~= v6_octets(g@));
            assert(w.subrange(52, 54) =~= u16_le(n.addr.port));
        },
    }
}

/// Two received nodes whose bytes both begin `s` are the same node: the
/// node format is unambiguous and prefix-free.
pub proof fn lemma_node_wire_unique(a: NodeInfo, b: NodeInfo, s: Seq<u8>)
    requires
        node_wire(a).is_prefix_of(s),
        node_wire(b).is_prefix_of(s),
        a.last_seen is None,
        b.last_seen is None,
    ensures
        a == b,
{
    lemma_node_wire_shape(a);
    lemma_node_wire_shape(b);
    let wa = node_wire(a);
    let wb = node_wire(b);
    assert(wa.subrange(32, 36) == s.subrange(32, 36));
    assert(wb.subrange(32, 36) == s.subrange(32, 36));
    assert(wa.subrange(32, 36)[0] == wb.subrange(32, 36)[0]);
    assert(wa.len() == wb.len());
    assert(wa =~= wb);
    assert(wa.subrange(0, 32) == wb.subrange(0, 32));
    assert(a.dht_pk.0@ =~= b.dht_pk.0@);
    assert(a.dht_pk.0 =~= b.dht_pk.0);
    match (a.addr.ip, b.addr.ip) {
        (IpAddress::V4(x), IpAddress::V4(y)) => {
            assert(wa.subrange(36, 40) == wb.subrange(36, 40));
            assert(x@ =~= y@);
            assert(x =~= y);
            lemma_u16_le_injective(a.addr.port, b.addr.port);
            lemma_i8_byte_injective(a.reputation, b.reputation);
        },
        (IpAddress::V6(x), IpAddress::V6(y)) => {
            assert(wa.subrange(36, 52) == wb.subrange(36, 52));
            lemma_v6_injective(x, y);
            lemma_u16_le_injective(a.addr.port, b.addr.port);
            lemma_i8_byte_injective(a.reputation, b.reputation);
        },
        _ => {},
    }
}

fn read_u16(s: &[u8], at: usize) -> (n: u16)
    requires
        at + 2 <= s@.len(),
    ensures
        u16_le(n) == s@.subrange(at as int, at + 2),
{
    let lo = s[at] as u16;
    let hi = s[at + 1] as u16;
    let n = lo | (hi << 8u16);
    proof {
        assert(lo < 256 && hi < 256);
        assert((n & 0xff) as u8 == lo as u8 && (n >> 8u16) as u8 == hi as u8) by (bit_vector)
            requires
                lo < 256 && hi < 256,
                n == lo | (hi << 8u16),
        ;
        assert(u16_le(n) =~= s@.subrange(at as int, at + 2));
    }
    n
}

fn read_v6(s: &[u8], at: usize) -> (g: [u16; 8])
    requires
        at + 16 <= s@.len(),
    ensures
        v6_octets(g@) == s@.subrange(at as int, at + 16),
{
    let mut g = [0u16; 8];
    let mut i: usize = 0;
    while i < 8
        invariant
            i <= 8,
            at + 16 <= s.len(),
            g@.len() == 8,
            forall|j: int| 0 <= j < i ==> #[trigger] v6_octets(g@)[2 * j] == s@[at + 2 * j] && v6_octets(g@)[2 * j + 1] == s@[at + 2 * j + 1],
        decreases 8 - i,
    {
        assert(at + i + i + 1 < s@.len());
        let base = at + i + i;
        let hi8 = s[base];
        let lo8 = s[base + 1];
        let hi = hi8 as u16;
        let lo = lo8 as u16;
        let v = (hi << 8u16) | lo;
        let ghost before = g@;
        g[i] = v;
        proof {
            assert((v >> 8u16) as u8 == hi8 && (v & 0xff) as u8 == lo8) by (bit_vector)
                requires
                    lo == lo8 as u16,
                    hi == hi8 as u16,
                    v == (hi << 8u16) | lo,
            ;
            assert forall|j: int| 0 <= j < i + 1 implies #[trigger] v6_octets(g@)[2 * j] == s@[at + 2 * j] && v6_octets(g@)[2 * j + 1] == s@[at + 2 * j + 1] by {
                lemma_v6_octets_at(g@, j);
                lemma_v6_octets_at(before, j);
                if j < i {
                    assert(g@[j] == before[j]);
                    assert(v6_octets(before)[2 * j] == s@[at + 2 * j]);
                    assert(v6_octets(before)[2 * j + 1] == s@[at + 2 * j + 1]);
                }
            }
        }
        i = i + 1;
    }
    proof {
        assert forall|k: int| 0 <= k < 16 implies v6_octets(g@)[k] == s@.subrange(at as int, at + 16)[k] by {
            let j = k / 2;
            if k % 2 == 0 {
                assert(k == 2 * j);
                assert(v6_octets(g@)[2 * j] == s@[at + 2 * j]);
            } else {
                assert(k == 2 * j + 1);
                assert(v6_octets(g@)[2 * j] == s@[at + 2 * j]);
                assert(v6_octets(g@)[2 * j + 1] == s@[at + 2 * j + 1]);
            }
        }
        assert(v6_octets(g@) =~= s@.subrange(at as int, at + 16));
    }
    g
}

/// Reads a node at `pos`. `None` exactly when no node's bytes begin there.
pub fn read_node(s: &[u8], pos: usize) -> (r: Option<(NodeInfo, usize)>)
    requires
        pos <= s@.len(),
    ensures
        match r {
            Some((n, end)) => pos <= end <= s@.len() && s@.subrange(pos as int, end as int) == node_wire(n) && n.last_seen is None,
            None => forall|n: NodeInfo| !(#[trigger] node_wire(n)).is_prefix_of(s@.skip(pos as int)),
        },
{
    let ghost rest = s@.skip(pos as int);
    if s.len() - pos < 36 {
        proof {
            assert forall|n: NodeInfo| !(#[trigger] node_wire(n)).is_prefix_of(rest) by {
                lemma_node_wire_shape(n);
            }
        }
        return None;
    }
    let t0 = s[pos + 32];
    let t1 = s[pos + 33];
    let t2 = s[pos + 34];
    let t3 = s[pos + 35];
    let v4 = t0 == 0 && t1 == 0 && t2 == 0 && t3 == 0;
    let v6 = t0 == 1 && t1 == 0 && t2 == 0 && t3 == 0;
    let need: usize = if v4 { 44 } else { 56 };
    if !(v4 || v6) || s.len() - pos < need {
        proof {
            assert forall|n: NodeInfo| !(#[trigger] node_wire(n)).is_prefix_of(rest) by {
                lemma_node_wire_shape(n);
                if node_wire(n).is_prefix_of(rest) {
                    assert(node_wire(n).subrange(32, 36) == rest.subrange(32, 36));
                    assert(node_wire(n).subrange(32, 36)[0] == rest[32]);
                    assert(node_wire(n).subrange(32, 36)[1] == rest[33]);
                    assert(node_wire(n).subrange(32, 36)[2] == rest[34]);
                    assert(node_wire(n).subrange(32, 36)[3] == rest[35]);
                }
            }
        }
        return None;
    }
    let pk = array32_at(s, pos);
    let (ip, at) = if v4 {
        let o: [u8; 4] = [s[pos + 36], s[pos + 37], s[pos + 38], s[pos + 39]];
        (IpAddress::V4(o), pos + 40)
    } else {
        let g = read_v6(s, pos + 36);
        (IpAddress::V6(g), pos + 52)
    };
    let port = read_u16(s, at);
    let reputation = s[at + 2] as i8;
    let consecutive_failures = s[at + 3];
    let n = NodeInfo { dht_pk: DhtPublicKey(pk), addr: SocketAddress { ip, port }, last_seen: None, reputation, consecutive_failures };
    proof {
        let b = s@[at + 2];
        assert((b as i8) as u8 == b) by (bit_vector);
        lemma_node_wire_shape(n);
        let w = node_wire(n);
        let seg = s@.subrange(pos as int, at + 4);
        assert(w.len() == seg.len());
        assert(w.subrange(32, 36) =~= seg.subrange(32, 36));
        assert forall|k: int| 0 <= k < w.len() implies w[k] == seg[k] by {
            if k < 32 {
                assert(w.subrange(0, 32)[k] == seg[k]);
            } else if k < 36 {
                assert(w.subrange(32, 36)[k - 32] == seg[k]);
            } else if v4 && k < 40 {
                assert(w.subrange(36, 40)[k - 36] == seg[k]);
            } else if !v4 && k < 52 {
                assert(w.subrange(36, 52)[k - 36] == seg[k]);
            } else if k < w.len() - 2 {
                let base = w.len() - 4;
                assert(w.subrange(base, base + 2)[k - base] == seg[k]);
            }
        }
        assert(w =~= seg);
    }
    Some((n, at + 4))
}

/// Where the fields of a packet's bytes lie.
pub fn copy_range(s: &[u8], from: usize, len: usize) -> (v: Vec<u8>)
    requires
        from + len <= s@.len(),
    ensures
        v@ == s@.subrange(from as int, from + len),
{
    let mut v: Vec<u8> = Vec::new();
    let mut i: usize = 0;
    while i < len
        invariant
            i <= len,
            from + len <= s.len(),
            v@ == s@.subrange(from as int, from + i),
        decreases len - i,
    {
        v.push(s[from + i]);
        assert(v@ =~= s@.subrange(from as int, from + i + 1));
        i = i + 1;
    }
    v
}

pub proof fn lemma_prefix_parts(a: Seq<u8>, b: Seq<u8>, s: Seq<u8>)
    requires
        (a + b).is_prefix_of(s),
    ensures
        a.is_prefix_of(s),
        b.is_prefix_of(s.skip(a.len() as int)),
{
    assert forall|i: int| 0 <= i < a.len() implies a[i] == s[i] by {
        assert((a + b)[i] == s.subrange(0, (a + b).len() as int)[i]);
    }
    assert(a =~= s.subrange(0, a.len() as int));
    assert forall|i: int| 0 <= i < b.len() implies b[i] == s.skip(a.len() as int)[i] by {
        assert((a + b)[a.len() + i] == s.subrange(0, (a + b).len() as int)[a.len() + i]);
    }
    assert(b =~= s.skip(a.len() as int).subrange(0, b.len() as int));
}

/// Two byte vectors whose bytes both begin `s` are equal.
pub proof fn lemma_bytes_wire_unique(a: Seq<u8>, b: Seq<u8>, s: Seq<u8>)
    requires
        bytes_wire(a).is_prefix_of(s),
        bytes_wire(b).is_prefix_of(s),
        a.len() <= u64::MAX,
        b.len() <= u64::MAX,
    ensures
        a == b,
{
    lemma_prefix_parts(u64_le(a.len() as u64), a, s);
    lemma_prefix_parts(u64_le(b.len() as u64), b, s);
    assert(u64_le(a.len() as u64) =~= s.subrange(0, 8));
    assert(u64_le(b.len() as u64) =~= s.subrange(0, 8));
    lemma_u64_le_injective(a.len() as u64, b.len() as u64);
    assert(a =~= s.skip(8).subrange(0, a.len() as int));
    assert(b =~= s.skip(8).subrange(0, b.len() as int));
}

/// Reads a byte vector at `pos`. `None` exactly when no vector's bytes
/// begin there.
pub fn read_bytes(s: &[u8], pos: usize) -> (r: Option<(Vec<u8>, usize)>)
    requires
        pos <= s@.len(),
    ensures
        match r {
            Some((v, end)) => pos <= end <= s@.len() && s@.subrange(pos as int, end as int) == bytes_wire(v@),
            None => forall|v: Seq<u8>| v.len() <= u64::MAX ==> !(#[trigger] bytes_wire(v)).is_prefix_of(s@.skip(pos as int)),
        },
{
    if s.len() - pos < 8 {
        return None;
    }
    let n = u64_from_le_slice(s, pos);
    if ((s.len() - pos - 8) as u64) < n {
        proof {
            assert forall|v: Seq<u8>| v.len() <= u64::MAX implies !(#[trigger] bytes_wire(v)).is_prefix_of(s@.skip(pos as int)) by {
                if bytes_wire(v).is_prefix_of(s@.skip(pos as int)) {
                    lemma_prefix_parts(u64_le(v.len() as u64), v, s@.skip(pos as int));
                    assert(u64_le(v.len() as u64) =~= s@.subrange(pos as int, pos + 8));
                    lemma_u64_le_injective(n, v.len() as u64);
                }
            }
        }
        return None;
    }
    let len = n as usize;
    let v = copy_range(s, pos + 8, len);
    proof {
        assert(s@.subrange(pos as int, pos + 8 + len) =~= bytes_wire(v@));
    }
    Some((v, pos + 8 + len))
}

/// `p` begins `s` at `pos` when its bytes are those of `s` from there.
pub proof fn lemma_prefix_at(p: Seq<u8>, s: Seq<u8>, pos: int, end: int)
    requires
        0 <= pos <= end <= s.len(),
        s.subrange(pos, end) == p,
    ensures
        p.is_prefix_of(s.skip(pos)),
{
    assert(p =~= s.skip(pos).subrange(0, p.len() as int));
}

} // verus!
