use vstd::prelude::*;
use arrayvec::ArrayVec;
use crate::clock::unix_millis;
use crate::crypto::pow::{hash_bit, lemma_hash_bit_index};
use crate::dht::node::{bytes32_eq, subnet_of, DhtPublicKey, NodeInfo};
use crate::dht::order::{bytes32_lt, lemma_lex_irreflexive, lemma_lex_total, lemma_lex_transitive, lex_lt};

verus! {

/// k-bucket size
pub const K: usize = 20;

/// Number of bits in a DHT key.
pub const KEY_BITS: usize = 256;

/// A fixed-capacity vector from the `arrayvec` crate.
#[verifier::external_type_specification]
#[verifier::external_body]
#[verifier::reject_recursive_types(T)]
pub struct ExArrayVec<T, const CAP: usize>(ArrayVec<T, CAP>);

/// The nodes that a bucket's `ArrayVec` holds, in order.
pub uninterp spec fn bucket_contents(nodes: ArrayVec<NodeInfo, 20>) -> Seq<NodeInfo>;

/// `ArrayVec::new`: an empty vector.
#[verifier::external_body]
fn nodes_new() -> (v: ArrayVec<NodeInfo, 20>)
    ensures
        bucket_contents(v) == Seq::<NodeInfo>::empty(),
{
    ArrayVec::new()
}

/// `ArrayVec::len`: the number of nodes held, never more than the capacity.
#[verifier::external_body]
fn nodes_len(v: &ArrayVec<NodeInfo, 20>) -> (n: usize)
    ensures
        n == bucket_contents(*v).len(),
        n <= 20,
{
    v.len()
}

/// `ArrayVec` indexing (`v[i]`), copying the node out.
#[verifier::external_body]
fn nodes_get(v: &ArrayVec<NodeInfo, 20>, i: usize) -> (n: NodeInfo)
    requires
        i < bucket_contents(*v).len(),
    ensures
        n == bucket_contents(*v)[i as int],
{
    v[i]
}

/// `ArrayVec` index assignment (`v[i] = n`).
#[verifier::external_body]
fn nodes_set(v: &mut ArrayVec<NodeInfo, 20>, i: usize, n: NodeInfo)
    requires
        i < bucket_contents(*old(v)).len(),
    ensures
        bucket_contents(*final(v)) == bucket_contents(*old(v)).update(i as int, n),
{
    v[i] = n;
}

/// `ArrayVec::push`, which panics on a full vector; the caller keeps below capacity.
#[verifier::external_body]
fn nodes_push(v: &mut ArrayVec<NodeInfo, 20>, n: NodeInfo)
    requires
        bucket_contents(*old(v)).len() < 20,
    ensures
        bucket_contents(*final(v)) == bucket_contents(*old(v)).push(n),
{
    v.push(n);
}

/// The XOR distance of two 32-byte keys.
pub open spec fn xor_distance(a: Seq<u8>, b: Seq<u8>) -> Seq<u8> {
    Seq::new(32, |i: int| a[i] ^ b[i])
}

/// The position of the first set bit of `d` at or after bit `i` (256 if none).
pub open spec fn first_set_bit_from(d: Seq<u8>, i: nat) -> nat
    decreases 256 - i,
{
    if i >= 256 {
        256
    } else if hash_bit(d, i as int) != 0 {
        i
    } else {
        first_set_bit_from(d, i + 1)
    }
}

/// The number of leading zero bits of a 256-bit distance (256 when it is zero).
pub open spec fn leading_zero_bits(d: Seq<u8>) -> nat {
    first_set_bit_from(d, 0)
}

/// `r` is the leading-zero count of `d` when the bits before it are clear and
/// bit `r` (if any) is set.
pub proof fn lemma_leading_zero_bits(d: Seq<u8>, r: nat)
    requires
        r <= 256,
        forall|i: int| 0 <= i < r ==> #[trigger] hash_bit(d, i) == 0,
        r < 256 ==> hash_bit(d, r as int) != 0,
    ensures
        leading_zero_bits(d) == r,
{
    lemma_first_set_bit_from(d, 0, r);
}

proof fn lemma_first_set_bit_from(d: Seq<u8>, i: nat, r: nat)
    requires
        i <= r <= 256,
        forall|k: int| 0 <= k < r ==> #[trigger] hash_bit(d, k) == 0,
        r < 256 ==> hash_bit(d, r as int) != 0,
    ensures
        first_set_bit_from(d, i) == r,
    decreases r - i,
{
    if i < r {
        assert(hash_bit(d, i as int) == 0);
        lemma_first_set_bit_from(d, i + 1, r);
    }
}

/// The leading-zero count of a distance is at most 256: the first set bit
/// at or after bit `i` is at or after `i`, or there is none (256).
pub proof fn lemma_leading_zero_bits_bound(d: Seq<u8>, i: nat)
    ensures
        first_set_bit_from(d, i) <= 256,
        first_set_bit_from(d, i) >= i || first_set_bit_from(d, i) == 256,
    decreases 256 - i,
{
    if i < 256 && hash_bit(d, i as int) == 0 {
        lemma_leading_zero_bits_bound(d, i + 1);
    }
}

/// XOR Distance wrapper for Kademlia metric
#[derive(Debug, Clone, Copy, PartialEq, Eq, PartialOrd, Ord)]
pub struct Distance(pub [u8; 32]);

impl Distance {
    /// The XOR distance of two keys.
    pub fn calculate(a: &DhtPublicKey, b: &DhtPublicKey) -> (d: Self)
        ensures
            d.0@ == xor_distance(a.0@, b.0@),
    {
        let mut dist = [0u8; 32];
        let mut i: usize = 0;
        while i < 32
            invariant
                i <= 32,
                dist@.len() == 32,
                forall|j: int| 0 <= j < i ==> dist@[j] == a.0@[j] ^ b.0@[j],
            decreases 32 - i,
        {
            dist[i] = a.0[i] ^ b.0[i];
            i = i + 1;
        }
        assert(dist@ =~= xor_distance(a.0@, b.0@));
        Distance(dist)
    }

    /// The number of leading zero bits of the distance (256 for zero distance).
    pub fn leading_zeros(&self) -> (lz: u32)
        ensures
            lz == leading_zero_bits(self.0@),
            lz <= 256,
    {
        let mut i: usize = 0;
        while i < 32
            invariant
                i <= 32,
                self.0@.len() == 32,
                forall|k: int| 0 <= k < 8 * i ==> #[trigger] hash_bit(self.0@, k) == 0,
            decreases 32 - i,
        {
            let byte = self.0[i];
            let mut k: u32 = 0;
            while k < 8
                invariant
                    i < 32,
                    k <= 8,
                    byte == self.0@[i as int],
                    self.0@.len() == 32,
                    forall|t: int| 0 <= t < 8 * i + k ==> #[trigger] hash_bit(self.0@, t) == 0,
                decreases 8 - k,
            {
                let bit = (byte >> ((7 - k) as u8)) & 1u8;
                proof {
                    lemma_hash_bit_index(self.0@, i as int, k as int);
                }
                if bit != 0 {
                    proof {
                        lemma_leading_zero_bits(self.0@, (8 * i + k) as nat);
                    }
                    return (i as u32) * 8 + k;
                }
                k = k + 1;
            }
            i = i + 1;
        }
        proof {
            lemma_leading_zero_bits(self.0@, 256);
        }
        256
    }
}

/// A k-bucket: up to `K` nodes sharing a distance prefix with the local key.
pub struct KBucket {
    pub nodes: ArrayVec<NodeInfo, K>,
    /// When the bucket was last touched (milliseconds since the Unix epoch).
    pub last_updated: u64,
    /// The prefix space this bucket covers (0 to 256)
    pub prefix_length: u32,
}

impl KBucket {
    /// An empty bucket for the given prefix length.
    pub fn new(prefix_length: u32) -> (b: Self)
        ensures
            bucket_contents(b.nodes) == Seq::<NodeInfo>::empty(),
            b.prefix_length == prefix_length,
    {
        KBucket { nodes: nodes_new(), last_updated: unix_millis(), prefix_length }
    }

    /// Records that the bucket was used now.
    pub fn touch(&mut self)
        ensures
            bucket_contents(final(self).nodes) == bucket_contents(old(self).nodes),
            final(self).prefix_length == old(self).prefix_length,
    {
        self.last_updated = unix_millis();
    }
}

/// The leading-zero count of a node's distance from the local key.
pub open spec fn node_lz(local: Seq<u8>, n: NodeInfo) -> nat {
    leading_zero_bits(xor_distance(local, n.dht_pk.0@))
}

/// A node's leading-zero count is at most 256, so it always falls in one
/// of the cases of `insert_outcome`.
pub proof fn lemma_node_lz_bound(local: Seq<u8>, n: NodeInfo)
    ensures
        node_lz(local, n) <= 256,
{
    lemma_leading_zero_bits_bound(xor_distance(local, n.dht_pk.0@), 0);
}

/// When each bucket was last touched and the prefix length it covers,
/// bucket by bucket.
pub open spec fn bucket_meta(bs: Seq<KBucket>) -> Seq<(u64, u32)> {
    Seq::new(bs.len(), |b: int| (bs[b].last_updated, bs[b].prefix_length))
}

/// What an insertion at `now` does to the buckets' times and prefixes: none
/// changes, and a bucket made by a split was created at `now` and covers
/// the prefix one longer than the bucket it came from, its own index.
pub open spec fn meta_after_insert(old: Seq<KBucket>, new: Seq<KBucket>, now: u64) -> bool {
    bucket_meta(new) == if new.len() == old.len() {
        bucket_meta(old)
    } else {
        bucket_meta(old).push((now, old.len() as u32))
    }
}

/// The bucket that holds a distance with `lz` leading zeros in a table of
/// `nb` buckets: the last bucket covers every longer prefix.
pub open spec fn bucket_index_spec(lz: nat, nb: nat) -> nat {
    if lz == 256 {
        0
    } else if lz < nb - 1 {
        lz
    } else {
        (nb - 1) as nat
    }
}

/// How many nodes of `s` lie in the IPv4 /24 subnet `sub`.
pub open spec fn subnet_count(s: Seq<NodeInfo>, sub: Seq<u8>) -> nat
    decreases s.len(),
{
    if s.len() == 0 {
        0
    } else {
        subnet_count(s.drop_last(), sub) + if subnet_of(s.last().addr) == Some(sub) { 1nat } else { 0nat }
    }
}

/// No two nodes of `s` share a public key.
pub open spec fn pks_distinct(s: Seq<NodeInfo>) -> bool {
    forall|i: int, j: int| 0 <= i < s.len() && 0 <= j < s.len() && i != j ==> #[trigger] s[i].dht_pk.0@ != #[trigger] s[j].dht_pk.0@
}

/// The node belongs in bucket `b` of a table of `nb` buckets and is not the local node.
pub open spec fn placed(local: Seq<u8>, n: NodeInfo, b: nat, nb: nat) -> bool {
    &&& node_lz(local, n) < 256
    &&& bucket_index_spec(node_lz(local, n), nb) == b
}

/// The invariant of bucket `b`: at most `K` nodes, each belonging there,
/// no key twice, and at most two nodes from any /24 subnet.
pub open spec fn bucket_ok(local: Seq<u8>, s: Seq<NodeInfo>, b: nat, nb: nat) -> bool {
    &&& s.len() <= K
    &&& forall|j: int| 0 <= j < s.len() ==> placed(local, #[trigger] s[j], b, nb)
    &&& pks_distinct(s)
    &&& forall|sub: Seq<u8>| #[trigger] subnet_count(s, sub) <= 2
}

/// The node `n` after it was seen again at `now` from `addr`.
pub open spec fn seen_again(n: NodeInfo, addr: crate::dht::node::SocketAddress, now: u64) -> NodeInfo {
    NodeInfo {
        dht_pk: n.dht_pk,
        addr,
        last_seen: Some(now),
        reputation: if n.reputation < 127 { (n.reputation + 1) as i8 } else { 127 },
        consecutive_failures: 0,
    }
}

/// The part of a bucket that stays (`stay`) or moves out when the bucket
/// at depth `depth` is split: nodes whose distance has exactly `depth`
/// leading zeros stay, the others move, in their original order.
pub open spec fn split_part(local: Seq<u8>, s: Seq<NodeInfo>, depth: nat, stay: bool) -> Seq<NodeInfo>
    decreases s.len(),
{
    if s.len() == 0 {
        s
    } else {
        let rest = split_part(local, s.drop_last(), depth, stay);
        if (node_lz(local, s.last()) == depth) == stay {
            rest.push(s.last())
        } else {
            rest
        }
    }
}

/// The buckets after splitting the last bucket `idx`: the stayers remain at
/// `idx`, the movers form a new last bucket.
pub open spec fn split_spec(local: Seq<u8>, v: Seq<Seq<NodeInfo>>, idx: nat) -> Seq<Seq<NodeInfo>> {
    v.update(idx as int, split_part(local, v[idx as int], idx, true)).push(split_part(local, v[idx as int], idx, false))
}

/// Index of the first node with a reputation below -10.
pub open spec fn is_first_bad(s: Seq<NodeInfo>, j: int) -> bool {
    &&& 0 <= j < s.len()
    &&& s[j].reputation < -10
    &&& forall|k: int| 0 <= k < j ==> #[trigger] s[k].reputation >= -10
}

/// All nodes of all buckets, bucket by bucket.
pub open spec fn concat_buckets(v: Seq<Seq<NodeInfo>>) -> Seq<NodeInfo>
    decreases v.len(),
{
    if v.len() == 0 {
        Seq::empty()
    } else {
        concat_buckets(v.drop_last()) + v.last()
    }
}

proof fn lemma_subnet_count_push(s: Seq<NodeInfo>, x: NodeInfo, sub: Seq<u8>)
    ensures
        subnet_count(s.push(x), sub) == subnet_count(s, sub) + if subnet_of(x.addr) == Some(sub) { 1nat } else { 0nat },
{
    assert(s.push(x).drop_last() =~= s);
}

proof fn lemma_subnet_count_update(s: Seq<NodeInfo>, i: int, x: NodeInfo, sub: Seq<u8>)
    requires
        0 <= i < s.len(),
    ensures
        subnet_count(s.update(i, x), sub) + (if subnet_of(s[i].addr) == Some(sub) { 1nat } else { 0nat })
            == subnet_count(s, sub) + (if subnet_of(x.addr) == Some(sub) { 1nat } else { 0nat }),
    decreases s.len(),
{
    if i == s.len() - 1 {
        assert(s.update(i, x).drop_last() =~= s.drop_last());
    } else {
        lemma_subnet_count_update(s.drop_last(), i, x, sub);
        assert(s.update(i, x).drop_last() =~= s.drop_last().update(i, x));
    }
}

proof fn lemma_split_part(local: Seq<u8>, s: Seq<NodeInfo>, depth: nat, stay: bool)
    ensures
        forall|i: int| 0 <= i < split_part(local, s, depth, stay).len() ==>
            (node_lz(local, #[trigger] split_part(local, s, depth, stay)[i]) == depth) == stay
            && s.contains(split_part(local, s, depth, stay)[i]),
        split_part(local, s, depth, stay).len() <= s.len(),
        pks_distinct(s) ==> pks_distinct(split_part(local, s, depth, stay)),
    decreases s.len(),
{
    if s.len() > 0 {
        let rest = split_part(local, s.drop_last(), depth, stay);
        lemma_split_part(local, s.drop_last(), depth, stay);
        assert forall|i: int| 0 <= i < rest.len() implies s.contains(#[trigger] rest[i]) by {
            let w = choose|w: int| 0 <= w < s.drop_last().len() && s.drop_last()[w] == rest[i];
            assert(s[w] == rest[i]);
        }
        if (node_lz(local, s.last()) == depth) == stay {
            let p = rest.push(s.last());
            assert forall|i: int| 0 <= i < p.len() implies (node_lz(local, #[trigger] p[i]) == depth) == stay
                && s.contains(p[i]) by {
                if i == rest.len() {
                    assert(s[s.len() - 1] == p[i]);
                } else {
                    assert(p[i] == rest[i]);
                }
            }
            if pks_distinct(s) {
                assert(pks_distinct(s.drop_last()));
                assert forall|i: int, j: int| 0 <= i < p.len() && 0 <= j < p.len() && i != j
                    implies #[trigger] p[i].dht_pk.0@ != #[trigger] p[j].dht_pk.0@ by {
                    if i == rest.len() {
                        let w = choose|w: int| 0 <= w < s.drop_last().len() && s.drop_last()[w] == rest[j];
                        assert(s[w] == p[j]);
                        assert(s[s.len() - 1] == p[i]);
                    } else if j == rest.len() {
                        let w = choose|w: int| 0 <= w < s.drop_last().len() && s.drop_last()[w] == rest[i];
                        assert(s[w] == p[i]);
                        assert(s[s.len() - 1] == p[j]);
                    } else {
                        assert(p[i] == rest[i] && p[j] == rest[j]);
                    }
                }
            }
        } else {
            if pks_distinct(s) {
                assert(pks_distinct(s.drop_last()));
            }
        }
    }
}

proof fn lemma_split_part_counts(local: Seq<u8>, s: Seq<NodeInfo>, depth: nat, sub: Seq<u8>)
    ensures
        subnet_count(split_part(local, s, depth, true), sub) + subnet_count(split_part(local, s, depth, false), sub)
            == subnet_count(s, sub),
        split_part(local, s, depth, true).len() + split_part(local, s, depth, false).len() == s.len(),
    decreases s.len(),
{
    if s.len() > 0 {
        lemma_split_part_counts(local, s.drop_last(), depth, sub);
        lemma_subnet_count_push(split_part(local, s.drop_last(), depth, true), s.last(), sub);
        lemma_subnet_count_push(split_part(local, s.drop_last(), depth, false), s.last(), sub);
    }
}

/// The outcome of offering `node` at time `now` to a table with buckets `v`
/// (local key `local`): the buckets `nv` afterwards and whether the node
/// was taken. The local node and a node whose /24 subnet already has two
/// nodes in its bucket are refused; a known node is refreshed in place; a
/// new node is appended to a bucket with room, replaces the first node with
/// a reputation below -10 in a full bucket, or, when the full bucket is the
/// last one and fewer than 256 exist, goes to its half of the split bucket
/// if that has room.
pub open spec fn insert_outcome(local: Seq<u8>, v: Seq<Seq<NodeInfo>>, nv: Seq<Seq<NodeInfo>>, node: NodeInfo, now: u64, inserted: bool) -> bool {
    let lz = node_lz(local, node);
    let idx = bucket_index_spec(lz, v.len());
    let bucket = v[idx as int];
    let crowded = (subnet_of(node.addr) matches Some(sub) && subnet_count(bucket, sub) >= 2);
    let known = exists|j: int| 0 <= j < bucket.len() && #[trigger] bucket[j].dht_pk.0@ == node.dht_pk.0@;
    let has_bad = exists|j: int| #[trigger] is_first_bad(bucket, j);
    let can_split = idx == v.len() - 1 && v.len() < KEY_BITS;
    let sv = split_spec(local, v, idx);
    let idx2 = bucket_index_spec(lz, sv.len());
    &&& lz == 256 ==> !inserted && nv == v
    &&& lz < 256 && crowded ==> !inserted && nv == v
    &&& lz < 256 && !crowded && known ==> inserted && exists|j: int| 0 <= j < bucket.len()
        && bucket[j].dht_pk.0@ == node.dht_pk.0@
        && nv == v.update(idx as int, bucket.update(j, seen_again(bucket[j], node.addr, now)))
    &&& lz < 256 && !crowded && !known && bucket.len() < K ==> inserted
        && nv == v.update(idx as int, bucket.push(node))
    &&& lz < 256 && !crowded && !known && bucket.len() >= K && has_bad ==> inserted
        && exists|j: int| is_first_bad(bucket, j) && nv == v.update(idx as int, bucket.update(j, node))
    &&& lz < 256 && !crowded && !known && bucket.len() >= K && !has_bad && can_split ==> (
        if sv[idx2 as int].len() < K {
            inserted && nv == sv.update(idx2 as int, sv[idx2 as int].push(node))
        } else {
            !inserted && nv == sv
        })
    &&& lz < 256 && !crowded && !known && bucket.len() >= K && !has_bad && !can_split ==> !inserted && nv == v
}

/// The buckets `nv` are what offering `nodes` one after another, all at
/// time `now`, makes of the buckets `v`.
pub open spec fn offered_in_turn(local: Seq<u8>, v: Seq<Seq<NodeInfo>>, nodes: Seq<NodeInfo>, now: u64, nv: Seq<Seq<NodeInfo>>) -> bool
    decreases nodes.len(),
{
    if nodes.len() == 0 {
        nv == v
    } else {
        exists|mid: Seq<Seq<NodeInfo>>, ins: bool| offered_in_turn(local, v, nodes.drop_last(), now, mid)
            && #[trigger] insert_outcome(local, mid, nv, nodes.last(), now, ins)
    }
}

/// Dynamic Kademlia Routing Table featuring bucket-splitting.
pub struct RoutingTable {
    pub local_key: DhtPublicKey,
    /// Dynamic tree of buckets, starting with a single bucket.
    pub buckets: Vec<KBucket>,
}

impl RoutingTable {
    /// The nodes of each bucket, bucket by bucket.
    pub open spec fn view_buckets(&self) -> Seq<Seq<NodeInfo>> {
        Seq::new(self.buckets@.len(), |b: int| bucket_contents(self.buckets@[b].nodes))
    }

    /// The routing table invariant: between one and 256 buckets, and every
    /// bucket keeps its invariant.
    pub open spec fn wf(&self) -> bool {
        &&& 1 <= self.buckets@.len() <= KEY_BITS
        &&& forall|b: int| 0 <= b < self.buckets@.len() ==> bucket_ok(self.local_key.0@,
            #[trigger] bucket_contents(self.buckets@[b].nodes), b as nat, self.buckets@.len())
    }

    /// A table with a single empty bucket covering the whole key space.
    pub fn new(local_key: DhtPublicKey) -> (rt: Self)
        ensures
            rt.wf(),
            rt.local_key == local_key,
            rt.view_buckets() == seq![Seq::<NodeInfo>::empty()],
    {
        let mut buckets: Vec<KBucket> = Vec::new();
        buckets.push(KBucket::new(0));
        let rt = RoutingTable { local_key, buckets };
        proof {
            assert(bucket_contents(rt.buckets@[0].nodes) =~= Seq::<NodeInfo>::empty());
            assert forall|sub: Seq<u8>| #[trigger] subnet_count(Seq::<NodeInfo>::empty(), sub) <= 2 by {}
            assert(rt.view_buckets() =~= seq![Seq::<NodeInfo>::empty()]);
        }
        rt
    }

    /// Finds the index of the bucket that should contain the given distance.
    pub fn find_bucket_index(&self, dist: &Distance) -> (idx: usize)
        requires
            self.buckets@.len() >= 1,
        ensures
            idx == bucket_index_spec(leading_zero_bits(dist.0@), self.buckets@.len()),
    {
        let lz = dist.leading_zeros() as usize;
        if lz == 256 {
            return 0;
        }
        if lz < self.buckets.len() - 1 {
            lz
        } else {
            self.buckets.len() - 1
        }
    }

    /// Inserts a node into the routing table. Splitting buckets if necessary.
    pub fn insert(&mut self, node: NodeInfo) -> (inserted: bool)
        requires
            old(self).wf(),
        ensures
            final(self).wf(),
            final(self).local_key == old(self).local_key,
            exists|now: u64| #[trigger] insert_outcome(old(self).local_key.0@, old(self).view_buckets(), final(self).view_buckets(), node, now, inserted)
                && meta_after_insert(old(self).buckets@, final(self).buckets@, now),
            node.dht_pk == old(self).local_key ==> !inserted,
            inserted ==> exists|n: NodeInfo| #[trigger] concat_buckets(final(self).view_buckets()).contains(n)
                && n.dht_pk == node.dht_pk && n.addr == node.addr,
            !inserted ==> concat_buckets(final(self).view_buckets()).to_multiset()
                == concat_buckets(old(self).view_buckets()).to_multiset(),
    {
        let now = unix_millis();
        self.insert_at(node, now)
    }

    /// Offers the nodes to the table one after another, all seen at `now`.
    pub fn insert_all(&mut self, nodes: &Vec<NodeInfo>, now: u64)
        requires
            old(self).wf(),
        ensures
            final(self).wf(),
            final(self).local_key == old(self).local_key,
            offered_in_turn(old(self).local_key.0@, old(self).view_buckets(), nodes@, now, final(self).view_buckets()),
    {
        let ghost local = self.local_key.0@;
        let ghost key0 = self.local_key;
        let ghost v0 = self.view_buckets();
        let mut i: usize = 0;
        while i < nodes.len()
            invariant
                i <= nodes@.len(),
                self.wf(),
                self.local_key.0@ == local,
                self.local_key == key0,
                offered_in_turn(local, v0, nodes@.take(i as int), now, self.view_buckets()),
            decreases nodes@.len() - i,
        {
            let ghost mid = self.view_buckets();
            let ins = self.insert_at(nodes[i], now);
            proof {
                let t = nodes@.take(i + 1);
                assert(t.drop_last() =~= nodes@.take(i as int));
                assert(t.last() == nodes@[i as int]);
                assert(offered_in_turn(local, v0, t.drop_last(), now, mid));
            }
            i = i + 1;
        }
        assert(nodes@.take(i as int) =~= nodes@);
    }

    /// Inserts a node seen at time `now`. Splitting buckets if necessary.
    ///
    /// The node is refused when it is the local node, or when its bucket
    /// already holds two nodes of its IPv4 /24 subnet. A node already known
    /// is refreshed in place (new address, seen now). Otherwise it is
    /// appended to a bucket with room, replaces the first node of a full
    /// bucket whose reputation is below -10, or, when the full bucket is the
    /// last one and fewer than 256 exist, the bucket is split and the node
    /// is appended to its half if that has room. An accepted node is in the
    /// table afterwards; a refused one leaves the table's nodes as they were.
    pub fn insert_at(&mut self, node: NodeInfo, now: u64) -> (inserted: bool)
        requires
            old(self).wf(),
        ensures
            final(self).wf(),
            final(self).local_key == old(self).local_key,
            insert_outcome(old(self).local_key.0@, old(self).view_buckets(), final(self).view_buckets(), node, now, inserted),
            meta_after_insert(old(self).buckets@, final(self).buckets@, now),
            node.dht_pk == old(self).local_key ==> !inserted,
            inserted ==> exists|n: NodeInfo| #[trigger] concat_buckets(final(self).view_buckets()).contains(n)
                && n.dht_pk == node.dht_pk && n.addr == node.addr,
            !inserted ==> concat_buckets(final(self).view_buckets()).to_multiset()
                == concat_buckets(old(self).view_buckets()).to_multiset(),
    {
        let inserted = self.offer(node, now);
        proof {
            lemma_insert_law(old(self).local_key.0@, old(self).view_buckets(), self.view_buckets(), node, now, inserted);
            if inserted {
                let n = choose|n: NodeInfo| #[trigger] concat_buckets(self.view_buckets()).contains(n)
                    && n.dht_pk.0@ == node.dht_pk.0@ && n.addr == node.addr;
                assert(n.dht_pk.0 =~= node.dht_pk.0);
            }
        }
        inserted
    }

    /// The decision and the update of `insert_at`, bucket by bucket.
    fn offer(&mut self, node: NodeInfo, now: u64) -> (inserted: bool)
        requires
            old(self).wf(),
        ensures
            final(self).wf(),
            final(self).local_key == old(self).local_key,
            insert_outcome(old(self).local_key.0@, old(self).view_buckets(), final(self).view_buckets(), node, now, inserted),
            meta_after_insert(old(self).buckets@, final(self).buckets@, now),
    {
        let ghost local = self.local_key.0@;
        let ghost v = self.view_buckets();
        let dist = Distance::calculate(&self.local_key, &node.dht_pk);
        let lz = dist.leading_zeros();
        if lz == 256 {
            return false;
        }
        let idx = self.find_bucket_index(&dist);
        proof {
            assert(bucket_ok(local, v[idx as int], idx as nat, v.len()));
        }
        let ghost bucket = v[idx as int];
        let len = nodes_len(&self.buckets[idx].nodes);

        // Anti-sybil subnet checking
        if let Some(subnet) = node.subnet_24() {
            let mut count: usize = 0;
            let mut j: usize = 0;
            while j < len
                invariant
                    j <= len,
                    len == bucket.len(),
                    bucket == bucket_contents(self.buckets@[idx as int].nodes),
                    idx < self.buckets@.len(),
                    *self == *old(self),
                    count == subnet_count(bucket.take(j as int), subnet@),
                    count <= j,
                decreases len - j,
            {
                let n = nodes_get(&self.buckets[idx].nodes, j);
                let s = n.subnet_24();
                proof {
                    assert(bucket.take(j + 1).drop_last() =~= bucket.take(j as int));
                    assert(bucket.take(j + 1).last() == n);
                }
                match s {
                    Some(t) => {
                        if t[0] == subnet[0] && t[1] == subnet[1] && t[2] == subnet[2] {
                            assert(t@ =~= subnet@);
                            count = count + 1;
                        } else {
                            assert(t@ != subnet@) by {
                                if t@ == subnet@ {
                                    assert(t@[0] == subnet@[0] && t@[1] == subnet@[1] && t@[2] == subnet@[2]);
                                }
                            }
                        }
                    },
                    None => {},
                }
                j = j + 1;
            }
            assert(bucket.take(len as int) =~= bucket);
            if count >= 2 {
                return false;
            }
        }

        // A known node is refreshed in place
        let mut j: usize = 0;
        while j < len
            invariant
                j <= len,
                len == bucket.len(),
                bucket == bucket_contents(self.buckets@[idx as int].nodes),
                idx < self.buckets@.len(),
                *self == *old(self),
                v == old(self).view_buckets(),
                local == old(self).local_key.0@,
                old(self).wf(),
                placed(local, node, idx as nat, v.len()),
                bucket == v[idx as int],
                subnet_of(node.addr) matches Some(sub) ==> subnet_count(bucket, sub) < 2,
                forall|k: int| 0 <= k < j ==> #[trigger] bucket[k].dht_pk.0@ != node.dht_pk.0@,
            decreases len - j,
        {
            let mut existing = nodes_get(&self.buckets[idx].nodes, j);
            if bytes32_eq(&existing.dht_pk.0, &node.dht_pk.0) {
                existing.mark_seen_at(now);
                existing.addr = node.addr;
                proof {
                    assert(existing == seen_again(bucket[j as int], node.addr, now));
                }
                self.set_node(idx, j, existing);
                proof {
                    assert(final_view_after_set(v, idx as nat, j as nat, existing) =~= self.view_buckets());
                    self.lemma_wf_after_refresh(v, idx as nat, j as nat, node);
                }
                return true;
            }
            j = j + 1;
        }

        if len < K {
            self.push_node(idx, node);
            proof {
                assert(v.update(idx as int, bucket.push(node)) =~= self.view_buckets());
                self.lemma_wf_after_push(v, idx as nat, node);
            }
            return true;
        }

        // BUCKET IS FULL - Try Eviction First
        let mut j: usize = 0;
        while j < len
            invariant
                j <= len,
                len == bucket.len(),
                bucket == bucket_contents(self.buckets@[idx as int].nodes),
                idx < self.buckets@.len(),
                *self == *old(self),
                v == old(self).view_buckets(),
                local == old(self).local_key.0@,
                old(self).wf(),
                placed(local, node, idx as nat, v.len()),
                bucket == v[idx as int],
                subnet_of(node.addr) matches Some(sub) ==> subnet_count(bucket, sub) < 2,
                len >= K,
                forall|k: int| 0 <= k < bucket.len() ==> #[trigger] bucket[k].dht_pk.0@ != node.dht_pk.0@,
                forall|k: int| 0 <= k < j ==> #[trigger] bucket[k].reputation >= -10,
            decreases len - j,
        {
            let n = nodes_get(&self.buckets[idx].nodes, j);
            if n.reputation < -10 {
                proof {
                    assert(is_first_bad(bucket, j as int));
                }
                self.set_node(idx, j, node);
                proof {
                    assert(v.update(idx as int, bucket.update(j as int, node)) =~= self.view_buckets());
                    self.lemma_wf_after_evict(v, idx as nat, j as nat, node);
                }
                return true;
            }
            j = j + 1;
        }
        proof {
            assert forall|jj: int| !is_first_bad(bucket, jj) by {
                if is_first_bad(bucket, jj) {
                    assert(bucket[jj].reputation >= -10);
                }
            }
        }

        // BUCKET SPLITTING LOGIC: only the last bucket (the one covering the
        // local node's own space) is split.
        if idx == self.buckets.len() - 1 && self.buckets.len() < KEY_BITS {
            self.split_bucket(idx, now);
            let idx2 = self.find_bucket_index(&dist);
            let ghost sv = self.view_buckets();
            proof {
                assert(bucket_ok(local, sv[idx2 as int], idx2 as nat, sv.len()));
            }
            let len2 = nodes_len(&self.buckets[idx2].nodes);
            if len2 < K {
                proof {
                    self.lemma_after_split_fresh(v, idx as nat, idx2 as nat, node);
                }
                self.push_node(idx2, node);
                proof {
                    assert(sv.update(idx2 as int, sv[idx2 as int].push(node)) =~= self.view_buckets());
                    self.lemma_wf_after_push(sv, idx2 as nat, node);
                }
                return true;
            }
        }
        false
    }

    /// Replaces node `j` of bucket `idx`.
    fn set_node(&mut self, idx: usize, j: usize, n: NodeInfo)
        requires
            idx < old(self).buckets@.len(),
            j < bucket_contents(old(self).buckets@[idx as int].nodes).len(),
        ensures
            final(self).local_key == old(self).local_key,
            final(self).buckets@.len() == old(self).buckets@.len(),
            final(self).view_buckets() == old(self).view_buckets().update(idx as int,
                old(self).view_buckets()[idx as int].update(j as int, n)),
            bucket_meta(final(self).buckets@) == bucket_meta(old(self).buckets@),
    {
        let mut b = self.buckets.remove(idx);
        nodes_set(&mut b.nodes, j, n);
        self.buckets.insert(idx, b);
        assert(bucket_meta(self.buckets@) =~= bucket_meta(old(self).buckets@));
        assert(self.view_buckets() =~= old(self).view_buckets().update(idx as int,
            old(self).view_buckets()[idx as int].update(j as int, n)));
    }

    /// Appends a node to bucket `idx`.
    fn push_node(&mut self, idx: usize, n: NodeInfo)
        requires
            idx < old(self).buckets@.len(),
            bucket_contents(old(self).buckets@[idx as int].nodes).len() < K,
        ensures
            final(self).local_key == old(self).local_key,
            final(self).buckets@.len() == old(self).buckets@.len(),
            final(self).view_buckets() == old(self).view_buckets().update(idx as int,
                old(self).view_buckets()[idx as int].push(n)),
            bucket_meta(final(self).buckets@) == bucket_meta(old(self).buckets@),
    {
        let mut b = self.buckets.remove(idx);
        nodes_push(&mut b.nodes, n);
        self.buckets.insert(idx, b);
        assert(bucket_meta(self.buckets@) =~= bucket_meta(old(self).buckets@));
        assert(self.view_buckets() =~= old(self).view_buckets().update(idx as int,
            old(self).view_buckets()[idx as int].push(n)));
    }

    /// Splits the last bucket: nodes at exactly its depth stay, the rest move
    /// to a new last bucket one level deeper.
    fn split_bucket(&mut self, idx: usize, now: u64)
        requires
            old(self).wf(),
            idx == old(self).buckets@.len() - 1,
            old(self).buckets@.len() < KEY_BITS,
        ensures
            final(self).wf(),
            final(self).local_key == old(self).local_key,
            final(self).buckets@.len() == old(self).buckets@.len() + 1,
            final(self).view_buckets() == split_spec(old(self).local_key.0@, old(self).view_buckets(), idx as nat),
            bucket_meta(final(self).buckets@) == bucket_meta(old(self).buckets@).push((now, (idx + 1) as u32)),
    {
        let ghost local = self.local_key.0@;
        let ghost v = self.view_buckets();
        let ghost old_bucket = v[idx as int];
        let current_depth = idx;
        let mut new_bucket = KBucket { nodes: nodes_new(), last_updated: now, prefix_length: (current_depth + 1) as u32 };
        let mut keep = nodes_new();
        let len = nodes_len(&self.buckets[idx].nodes);
        let mut j: usize = 0;
        while j < len
            invariant
                j <= len,
                len == old_bucket.len(),
                len <= K,
                idx < self.buckets@.len(),
                current_depth == idx,
                self.local_key.0@ == local,
                old_bucket == bucket_contents(self.buckets@[idx as int].nodes),
                bucket_contents(keep) == split_part(local, old_bucket.take(j as int), idx as nat, true),
                bucket_contents(new_bucket.nodes) == split_part(local, old_bucket.take(j as int), idx as nat, false),
                new_bucket.last_updated == now,
                new_bucket.prefix_length == (idx + 1) as u32,
                self.buckets@ == old(self).buckets@,
            decreases len - j,
        {
            let node = nodes_get(&self.buckets[idx].nodes, j);
            proof {
                assert(old_bucket.take(j + 1).drop_last() =~= old_bucket.take(j as int));
                assert(old_bucket.take(j + 1).last() == node);
                lemma_split_part_counts(local, old_bucket.take(j as int), idx as nat, Seq::empty());
            }
            let d = Distance::calculate(&self.local_key, &node.dht_pk);
            let lz = d.leading_zeros() as usize;
            let ghost s1 = old_bucket.take(j + 1);
            proof {
                assert(lz == node_lz(local, node));
                assert(split_part(local, s1, idx as nat, true) == if lz == idx {
                    split_part(local, old_bucket.take(j as int), idx as nat, true).push(node)
                } else {
                    split_part(local, old_bucket.take(j as int), idx as nat, true)
                });
                assert(split_part(local, s1, idx as nat, false) == if lz != idx {
                    split_part(local, old_bucket.take(j as int), idx as nat, false).push(node)
                } else {
                    split_part(local, old_bucket.take(j as int), idx as nat, false)
                });
            }
            if lz == current_depth {
                nodes_push(&mut keep, node);
            } else {
                nodes_push(&mut new_bucket.nodes, node);
            }
            j = j + 1;
        }
        assert(old_bucket.take(len as int) =~= old_bucket);
        let mut b = self.buckets.remove(idx);
        b.nodes = keep;
        self.buckets.insert(idx, b);
        self.buckets.push(new_bucket);
        proof {
            assert(bucket_meta(self.buckets@) =~= bucket_meta(old(self).buckets@).push((now, (idx + 1) as u32)));
            assert(self.view_buckets() =~= split_spec(local, v, idx as nat));
            self.lemma_wf_after_split(v, idx as nat);
        }
    }

    proof fn lemma_wf_after_split(&self, v: Seq<Seq<NodeInfo>>, idx: nat)
        requires
            v.len() >= 1,
            v.len() < KEY_BITS,
            idx == v.len() - 1,
            forall|b: int| 0 <= b < v.len() ==> bucket_ok(self.local_key.0@, #[trigger] v[b], b as nat, v.len()),
            self.view_buckets() == split_spec(self.local_key.0@, v, idx),
            self.buckets@.len() == v.len() + 1,
        ensures
            self.wf(),
    {
        let local = self.local_key.0@;
        let nv = self.view_buckets();
        let n = v.len();
        let stay = split_part(local, v[idx as int], idx, true);
        let go = split_part(local, v[idx as int], idx, false);
        lemma_split_part(local, v[idx as int], idx, true);
        lemma_split_part(local, v[idx as int], idx, false);
        assert forall|sub: Seq<u8>| true implies subnet_count(stay, sub) <= 2 && subnet_count(go, sub) <= 2 by {
            lemma_split_part_counts(local, v[idx as int], idx, sub);
            assert(subnet_count(v[idx as int], sub) <= 2);
        }
        lemma_split_part_counts(local, v[idx as int], idx, Seq::empty());
        assert forall|b: int| 0 <= b < self.buckets@.len() implies bucket_ok(local,
            #[trigger] bucket_contents(self.buckets@[b].nodes), b as nat, self.buckets@.len()) by {
            assert(bucket_contents(self.buckets@[b].nodes) == nv[b]);
            if b < idx {
                assert(nv[b] == v[b]);
                assert(bucket_ok(local, v[b], b as nat, n));
                assert forall|j: int| 0 <= j < nv[b].len() implies placed(local, #[trigger] nv[b][j], b as nat, n + 1) by {
                    assert(placed(local, v[b][j], b as nat, n));
                }
            } else if b == idx {
                assert(nv[b] == stay);
                assert(bucket_ok(local, v[b], b as nat, n));
                assert forall|j: int| 0 <= j < stay.len() implies placed(local, #[trigger] stay[j], b as nat, n + 1) by {
                    assert(v[idx as int].contains(stay[j]));
                    let w = choose|w: int| 0 <= w < v[idx as int].len() && v[idx as int][w] == stay[j];
                    assert(placed(local, v[idx as int][w], idx, n));
                }
                assert forall|sub: Seq<u8>| #[trigger] subnet_count(stay, sub) <= 2 by {
                    lemma_split_part_counts(local, v[idx as int], idx, sub);
                    assert(subnet_count(v[idx as int], sub) <= 2);
                }
            } else {
                assert(b == n);
                assert(nv[b] == go);
                assert(bucket_ok(local, v[idx as int], idx, n));
                assert forall|j: int| 0 <= j < go.len() implies placed(local, #[trigger] go[j], b as nat, n + 1) by {
                    assert(v[idx as int].contains(go[j]));
                    let w = choose|w: int| 0 <= w < v[idx as int].len() && v[idx as int][w] == go[j];
                    assert(placed(local, v[idx as int][w], idx, n));
                }
                assert forall|sub: Seq<u8>| #[trigger] subnet_count(go, sub) <= 2 by {
                    lemma_split_part_counts(local, v[idx as int], idx, sub);
                    assert(subnet_count(v[idx as int], sub) <= 2);
                }
            }
        }
    }

    proof fn lemma_wf_after_push(&self, v: Seq<Seq<NodeInfo>>, idx: nat, node: NodeInfo)
        requires
            1 <= v.len() <= KEY_BITS,
            idx < v.len(),
            forall|b: int| 0 <= b < v.len() ==> bucket_ok(self.local_key.0@, #[trigger] v[b], b as nat, v.len()),
            v[idx as int].len() < K,
            placed(self.local_key.0@, node, idx, v.len()),
            forall|k: int| 0 <= k < v[idx as int].len() ==> #[trigger] v[idx as int][k].dht_pk.0@ != node.dht_pk.0@,
            subnet_of(node.addr) matches Some(sub) ==> subnet_count(v[idx as int], sub) < 2,
            self.view_buckets() == v.update(idx as int, v[idx as int].push(node)),
            self.buckets@.len() == v.len(),
        ensures
            self.wf(),
    {
        let local = self.local_key.0@;
        let nb = v[idx as int].push(node);
        assert forall|b: int| 0 <= b < self.buckets@.len() implies bucket_ok(local,
            #[trigger] bucket_contents(self.buckets@[b].nodes), b as nat, self.buckets@.len()) by {
            assert(bucket_contents(self.buckets@[b].nodes) == self.view_buckets()[b]);
            if b == idx {
                let old_b = v[idx as int];
                assert(bucket_ok(local, old_b, idx, v.len()));
                assert forall|j: int| 0 <= j < nb.len() implies placed(local, #[trigger] nb[j], b as nat, v.len()) by {
                    if j < old_b.len() {
                        assert(nb[j] == old_b[j]);
                    }
                }
                assert forall|i: int, j: int| 0 <= i < nb.len() && 0 <= j < nb.len() && i != j
                    implies #[trigger] nb[i].dht_pk.0@ != #[trigger] nb[j].dht_pk.0@ by {
                    if i == old_b.len() {
                        assert(nb[j] == old_b[j]);
                    } else if j == old_b.len() {
                        assert(nb[i] == old_b[i]);
                    } else {
                        assert(nb[i] == old_b[i] && nb[j] == old_b[j]);
                    }
                }
                assert forall|sub: Seq<u8>| #[trigger] subnet_count(nb, sub) <= 2 by {
                    lemma_subnet_count_push(old_b, node, sub);
                }
            } else {
                assert(self.view_buckets()[b] == v[b]);
            }
        }
    }

    proof fn lemma_wf_after_evict(&self, v: Seq<Seq<NodeInfo>>, idx: nat, j0: nat, node: NodeInfo)
        requires
            1 <= v.len() <= KEY_BITS,
            idx < v.len(),
            j0 < v[idx as int].len(),
            forall|b: int| 0 <= b < v.len() ==> bucket_ok(self.local_key.0@, #[trigger] v[b], b as nat, v.len()),
            placed(self.local_key.0@, node, idx, v.len()),
            forall|k: int| 0 <= k < v[idx as int].len() ==> #[trigger] v[idx as int][k].dht_pk.0@ != node.dht_pk.0@,
            subnet_of(node.addr) matches Some(sub) ==> subnet_count(v[idx as int], sub) < 2,
            self.view_buckets() == v.update(idx as int, v[idx as int].update(j0 as int, node)),
            self.buckets@.len() == v.len(),
        ensures
            self.wf(),
    {
        let local = self.local_key.0@;
        let old_b = v[idx as int];
        let nb = old_b.update(j0 as int, node);
        assert forall|b: int| 0 <= b < self.buckets@.len() implies bucket_ok(local,
            #[trigger] bucket_contents(self.buckets@[b].nodes), b as nat, self.buckets@.len()) by {
            assert(bucket_contents(self.buckets@[b].nodes) == self.view_buckets()[b]);
            if b == idx {
                assert(bucket_ok(local, old_b, idx, v.len()));
                assert forall|j: int| 0 <= j < nb.len() implies placed(local, #[trigger] nb[j], b as nat, v.len()) by {
                    if j != j0 {
                        assert(nb[j] == old_b[j]);
                    }
                }
                assert forall|i: int, j: int| 0 <= i < nb.len() && 0 <= j < nb.len() && i != j
                    implies #[trigger] nb[i].dht_pk.0@ != #[trigger] nb[j].dht_pk.0@ by {
                    if i == j0 {
                        assert(nb[j] == old_b[j]);
                    } else if j == j0 {
                        assert(nb[i] == old_b[i]);
                    } else {
                        assert(nb[i] == old_b[i] && nb[j] == old_b[j]);
                    }
                }
                assert forall|sub: Seq<u8>| #[trigger] subnet_count(nb, sub) <= 2 by {
                    lemma_subnet_count_update(old_b, j0 as int, node, sub);
                }
            } else {
                assert(self.view_buckets()[b] == v[b]);
            }
        }
    }

    proof fn lemma_wf_after_refresh(&self, v: Seq<Seq<NodeInfo>>, idx: nat, j0: nat, node: NodeInfo)
        requires
            1 <= v.len() <= KEY_BITS,
            idx < v.len(),
            j0 < v[idx as int].len(),
            forall|b: int| 0 <= b < v.len() ==> bucket_ok(self.local_key.0@, #[trigger] v[b], b as nat, v.len()),
            v[idx as int][j0 as int].dht_pk.0@ == node.dht_pk.0@,
            subnet_of(node.addr) matches Some(sub) ==> subnet_count(v[idx as int], sub) < 2,
            self.view_buckets() == v.update(idx as int, v[idx as int].update(j0 as int,
                seen_again(v[idx as int][j0 as int], node.addr, self.view_buckets()[idx as int][j0 as int].last_seen.unwrap()))),
            self.buckets@.len() == v.len(),
        ensures
            self.wf(),
    {
        let local = self.local_key.0@;
        let old_b = v[idx as int];
        let x = self.view_buckets()[idx as int][j0 as int];
        let nb = old_b.update(j0 as int, x);
        assert(self.view_buckets()[idx as int] == nb);
        assert forall|b: int| 0 <= b < self.buckets@.len() implies bucket_ok(local,
            #[trigger] bucket_contents(self.buckets@[b].nodes), b as nat, self.buckets@.len()) by {
            assert(bucket_contents(self.buckets@[b].nodes) == self.view_buckets()[b]);
            if b == idx {
                assert(bucket_ok(local, old_b, idx, v.len()));
                assert(x.dht_pk == old_b[j0 as int].dht_pk);
                assert forall|j: int| 0 <= j < nb.len() implies placed(local, #[trigger] nb[j], b as nat, v.len()) by {
                    if j != j0 {
                        assert(nb[j] == old_b[j]);
                    } else {
                        assert(placed(local, old_b[j], idx, v.len()));
                    }
                }
                assert forall|i: int, j: int| 0 <= i < nb.len() && 0 <= j < nb.len() && i != j
                    implies #[trigger] nb[i].dht_pk.0@ != #[trigger] nb[j].dht_pk.0@ by {
                    assert(old_b[i].dht_pk.0@ != old_b[j].dht_pk.0@);
                }
                assert forall|sub: Seq<u8>| #[trigger] subnet_count(nb, sub) <= 2 by {
                    lemma_subnet_count_update(old_b, j0 as int, x, sub);
                }
            } else {
                assert(self.view_buckets()[b] == v[b]);
            }
        }
    }

    proof fn lemma_after_split_fresh(&self, v: Seq<Seq<NodeInfo>>, idx: nat, idx2: nat, node: NodeInfo)
        requires
            self.view_buckets() == split_spec(self.local_key.0@, v, idx),
            v.len() >= 1,
            idx == v.len() - 1,
            idx < v.len(),
            idx2 == bucket_index_spec(node_lz(self.local_key.0@, node), v.len() + 1),
            node_lz(self.local_key.0@, node) < 256,
            bucket_index_spec(node_lz(self.local_key.0@, node), v.len()) == idx,
            forall|k: int| 0 <= k < v[idx as int].len() ==> #[trigger] v[idx as int][k].dht_pk.0@ != node.dht_pk.0@,
            subnet_of(node.addr) matches Some(sub) ==> subnet_count(v[idx as int], sub) < 2,
        ensures
            placed(self.local_key.0@, node, idx2, v.len() + 1),
            idx2 == idx || idx2 == idx + 1,
            forall|k: int| 0 <= k < self.view_buckets()[idx2 as int].len()
                ==> #[trigger] self.view_buckets()[idx2 as int][k].dht_pk.0@ != node.dht_pk.0@,
            subnet_of(node.addr) matches Some(sub) ==> subnet_count(self.view_buckets()[idx2 as int], sub) < 2,
    {
        let local = self.local_key.0@;
        let stay = split_part(local, v[idx as int], idx, true);
        let go = split_part(local, v[idx as int], idx, false);
        lemma_split_part(local, v[idx as int], idx, true);
        lemma_split_part(local, v[idx as int], idx, false);
        let part = self.view_buckets()[idx2 as int];
        assert(part == stay || part == go);
        assert forall|k: int| 0 <= k < part.len() implies #[trigger] part[k].dht_pk.0@ != node.dht_pk.0@ by {
            assert(v[idx as int].contains(part[k]));
        }
        if let Some(sub) = subnet_of(node.addr) {
            lemma_split_part_counts(local, v[idx as int], idx, sub);
        }
    }
}

/// The XOR distance of a node's key from a target key.
pub open spec fn dist_to(n: NodeInfo, target: Seq<u8>) -> Seq<u8> {
    xor_distance(n.dht_pk.0@, target)
}

/// How many nodes a lookup for `count` candidates returns at most: `count`,
/// but never more than a bucket's `K`.
pub open spec fn capped_count(count: nat) -> nat {
    if count < K { count } else { K as nat }
}

/// `closest` is the `count` nodes of `table` nearest to `target`, nearest
/// first: strictly ordered by XOR distance, all from the table, and a node
/// of the table is left out only when `count` nodes nearer than it were kept.
pub open spec fn closest_ok(table: Seq<NodeInfo>, target: Seq<u8>, count: nat, closest: Seq<NodeInfo>) -> bool {
    &&& closest.len() <= count
    &&& forall|i: int, j: int| 0 <= i < j < closest.len() ==>
        lex_lt(#[trigger] dist_to(closest[i], target), #[trigger] dist_to(closest[j], target))
    &&& forall|i: int| 0 <= i < closest.len() ==> table.contains(#[trigger] closest[i])
    &&& forall|k: int| 0 <= k < table.len() ==> closest.contains(#[trigger] table[k])
        || (closest.len() == count && forall|i: int| 0 <= i < closest.len()
            ==> lex_lt(#[trigger] dist_to(closest[i], target), dist_to(table[k], target)))
}

/// A distance comes after `last`, or any distance does when there is no `last`.
pub open spec fn after_last(last: Option<Distance>, d: Seq<u8>) -> bool {
    match last {
        Some(l) => lex_lt(l.0@, d),
        None => true,
    }
}

/// The limits every bucket of a well-formed table keeps: at most K nodes,
/// never the local node, no key twice, and at most two nodes from any /24
/// subnet (the anti-Sybil rule).
pub proof fn lemma_bucket_limits(t: RoutingTable, b: int, sub: Seq<u8>)
    requires
        t.wf(),
        0 <= b < t.view_buckets().len(),
    ensures
        t.view_buckets()[b].len() <= K,
        subnet_count(t.view_buckets()[b], sub) <= 2,
        forall|j: int| 0 <= j < t.view_buckets()[b].len() ==> node_lz(t.local_key.0@, #[trigger] t.view_buckets()[b][j]) < 256,
        forall|i: int, j: int| 0 <= i < j < t.view_buckets()[b].len()
            ==> (#[trigger] t.view_buckets()[b][i]).dht_pk.0@ != (#[trigger] t.view_buckets()[b][j]).dht_pk.0@,
{
    assert(bucket_ok(t.local_key.0@, bucket_contents(t.buckets@[b].nodes), b as nat, t.buckets@.len()));
    let s = t.view_buckets()[b];
    assert forall|j: int| 0 <= j < s.len() implies node_lz(t.local_key.0@, #[trigger] s[j]) < 256 by {
        assert(placed(t.local_key.0@, s[j], b as nat, t.buckets@.len()));
    }
}

/// The XOR metric is symmetric: the distance from `a` to `b` is the
/// distance from `b` to `a`.
pub proof fn lemma_xor_distance_symmetric(a: Seq<u8>, b: Seq<u8>)
    requires
        a.len() == 32,
        b.len() == 32,
    ensures
        xor_distance(a, b) == xor_distance(b, a),
{
    assert forall|i: int| 0 <= i < 32 implies xor_distance(a, b)[i] == xor_distance(b, a)[i] by {
        let x = a[i];
        let y = b[i];
        assert(x ^ y == y ^ x) by (bit_vector);
    }
    assert(xor_distance(a, b) =~= xor_distance(b, a));
}

/// Equal distances from one target mean equal keys.
pub proof fn lemma_xor_distance_injective(a: Seq<u8>, b: Seq<u8>, t: Seq<u8>)
    requires
        a.len() == 32,
        b.len() == 32,
        xor_distance(a, t) == xor_distance(b, t),
    ensures
        a == b,
{
    assert forall|i: int| 0 <= i < 32 implies a[i] == b[i] by {
        let x = a[i];
        let y = b[i];
        let z = t[i];
        assert(xor_distance(a, t)[i] == x ^ z);
        assert(xor_distance(b, t)[i] == y ^ z);
        assert(x == y) by (bit_vector)
            requires
                x ^ z == y ^ z,
        ;
    }
    assert(a =~= b);
}

/// Every node of the flattened table sits in some bucket.
proof fn lemma_concat_member(v: Seq<Seq<NodeInfo>>, p: int)
    requires
        0 <= p < concat_buckets(v).len(),
    ensures
        exists|b: int, j: int| 0 <= b < v.len() && 0 <= j < v[b].len() && #[trigger] v[b][j] == concat_buckets(v)[p],
    decreases v.len(),
{
    let a = concat_buckets(v.drop_last());
    if p < a.len() {
        lemma_concat_member(v.drop_last(), p);
        let (b, j) = choose|b: int, j: int| 0 <= b < v.drop_last().len() && 0 <= j < v.drop_last()[b].len()
            && #[trigger] v.drop_last()[b][j] == a[p];
        assert(v[b][j] == concat_buckets(v)[p]);
    } else {
        let b = v.len() - 1;
        let j = p - a.len();
        assert(v[b][j] == concat_buckets(v)[p]);
    }
}

/// Buckets that keep their invariant hold no key twice, across the whole table.
proof fn lemma_concat_distinct(local: Seq<u8>, v: Seq<Seq<NodeInfo>>, nb: nat)
    requires
        v.len() <= nb,
        forall|b: int| 0 <= b < v.len() ==> bucket_ok(local, #[trigger] v[b], b as nat, nb),
    ensures
        pks_distinct(concat_buckets(v)),
    decreases v.len(),
{
    if v.len() > 0 {
        let v0 = v.drop_last();
        let a = concat_buckets(v0);
        let last = v.last();
        let c = concat_buckets(v);
        assert forall|b: int| 0 <= b < v0.len() implies bucket_ok(local, #[trigger] v0[b], b as nat, nb) by {
            assert(v0[b] == v[b]);
        }
        lemma_concat_distinct(local, v0, nb);
        assert(bucket_ok(local, v[v.len() - 1], (v.len() - 1) as nat, nb));
        assert(c == a + last);
        assert forall|i: int, j: int| 0 <= i < c.len() && 0 <= j < c.len() && i != j
            implies #[trigger] c[i].dht_pk.0@ != #[trigger] c[j].dht_pk.0@ by {
            if i < a.len() && j < a.len() {
                assert(c[i] == a[i] && c[j] == a[j]);
            } else if i >= a.len() && j >= a.len() {
                assert(c[i] == last[i - a.len()] && c[j] == last[j - a.len()]);
            } else {
                let (x, y) = if i < a.len() { (i, j) } else { (j, i) };
                assert(c[x] == a[x]);
                assert(c[y] == last[y - a.len()]);
                lemma_concat_member(v0, x);
                let (b, k) = choose|b: int, k: int| 0 <= b < v0.len() && 0 <= k < v0[b].len() && #[trigger] v0[b][k] == a[x];
                assert(v0[b] == v[b]);
                assert(bucket_ok(local, v[b], b as nat, nb));
                assert(placed(local, v[b][k], b as nat, nb));
                assert(placed(local, last[y - a.len()], (v.len() - 1) as nat, nb));
            }
        }
    }
}

/// Closing step of the closest-node search: a node left out of the result is
/// farther than every node in it.
proof fn lemma_left_out_is_farther(result: Seq<NodeInfo>, t: Seq<u8>, n: NodeInfo)
    requires
        result.len() > 0,
        forall|i: int, j: int| 0 <= i < j < result.len() ==> lex_lt(#[trigger] dist_to(result[i], t), #[trigger] dist_to(result[j], t)),
        lex_lt(dist_to(result.last(), t), dist_to(n, t)),
    ensures
        forall|i: int| 0 <= i < result.len() ==> lex_lt(#[trigger] dist_to(result[i], t), dist_to(n, t)),
{
    assert forall|i: int| 0 <= i < result.len() implies lex_lt(#[trigger] dist_to(result[i], t), dist_to(n, t)) by {
        if i < result.len() - 1 {
            assert(lex_lt(dist_to(result[i], t), dist_to(result[result.len() - 1], t)));
            lemma_lex_transitive(dist_to(result[i], t), dist_to(result.last(), t), dist_to(n, t));
        }
    }
}

impl RoutingTable {
    /// Every node of the table, bucket by bucket.
    pub open spec fn table_nodes(&self) -> Seq<NodeInfo> {
        concat_buckets(self.view_buckets())
    }

    /// Copies out every node of the table, bucket by bucket.
    fn all_nodes(&self) -> (all: Vec<NodeInfo>)
        ensures
            all@ == self.table_nodes(),
    {
        let ghost v = self.view_buckets();
        let mut all: Vec<NodeInfo> = Vec::new();
        let mut b: usize = 0;
        while b < self.buckets.len()
            invariant
                b <= self.buckets@.len(),
                v == self.view_buckets(),
                all@ == concat_buckets(v.take(b as int)),
            decreases self.buckets@.len() - b,
        {
            let len = nodes_len(&self.buckets[b].nodes);
            let ghost before = all@;
            let mut j: usize = 0;
            while j < len
                invariant
                    j <= len,
                    b < self.buckets@.len(),
                    v == self.view_buckets(),
                    len == v[b as int].len(),
                    all@ == before + v[b as int].take(j as int),
                decreases len - j,
            {
                let n = nodes_get(&self.buckets[b].nodes, j);
                all.push(n);
                assert(v[b as int].take(j + 1) =~= v[b as int].take(j as int).push(n));
                j = j + 1;
            }
            assert(v[b as int].take(len as int) =~= v[b as int]);
            assert(v.take(b + 1).drop_last() =~= v.take(b as int));
            b = b + 1;
        }
        assert(v.take(self.buckets@.len() as int) =~= v);
        all
    }

    /// The `count` nodes closest to `target` by XOR distance, nearest first,
    /// and never more than `K` of them.
    ///
    /// The result is strictly ordered by distance, holds only nodes of the
    /// table, and leaves out a node only when `min(count, K)` nodes nearer
    /// than it were returned.
    pub fn find_closest(&self, target: &DhtPublicKey, count: usize) -> (closest: Vec<NodeInfo>)
        requires
            self.wf(),
        ensures
            closest_ok(self.table_nodes(), target.0@, capped_count(count as nat), closest@),
            closest@.len() <= K,
    {
        let count = if count < K { count } else { K };
        let ghost t = target.0@;
        let all = self.all_nodes();
        proof {
            lemma_concat_distinct(self.local_key.0@, self.view_buckets(), self.buckets@.len() as nat);
        }
        let mut result: Vec<NodeInfo> = Vec::new();
        let mut last: Option<Distance> = None;
        let mut exhausted = false;
        while !exhausted && result.len() < count
            invariant
                result.len() <= count,
                all@ == self.table_nodes(),
                pks_distinct(all@),
                t == target.0@,
                forall|i: int, j: int| 0 <= i < j < result.len() ==>
                    lex_lt(#[trigger] dist_to(result[i], t), #[trigger] dist_to(result[j], t)),
                forall|i: int| 0 <= i < result.len() ==> all@.contains(#[trigger] result[i]),
                result.len() == 0 <==> last is None,
                result.len() > 0 ==> (last matches Some(l) && l.0@ == dist_to(result@.last(), t)),
                forall|k: int| 0 <= k < all.len() && !after_last(last, #[trigger] dist_to(all@[k], t)) ==> result@.contains(all@[k]),
                exhausted ==> forall|k: int| 0 <= k < all.len() ==> result@.contains(#[trigger] all@[k]),
            decreases count - result.len() + if exhausted { 0int } else { 1int },
        {
            let mut best: Option<(usize, Distance)> = None;
            let mut k: usize = 0;
            while k < all.len()
                invariant
                    k <= all.len(),
                    t == target.0@,
                    best is None ==> forall|k2: int| 0 <= k2 < k ==> !after_last(last, #[trigger] dist_to(all@[k2], t)),
                    best matches Some(p) ==> {
                        &&& p.0 < k
                        &&& p.1.0@ == dist_to(all@[p.0 as int], t)
                        &&& after_last(last, p.1.0@)
                        &&& forall|k2: int| 0 <= k2 < k && after_last(last, #[trigger] dist_to(all@[k2], t))
                            ==> !lex_lt(dist_to(all@[k2], t), p.1.0@)
                    },
                decreases all.len() - k,
            {
                let d = Distance::calculate(&all[k].dht_pk, target);
                let later = match &last {
                    Some(l) => bytes32_lt(&l.0, &d.0),
                    None => true,
                };
                if later {
                    match best {
                        None => {
                            best = Some((k, d));
                        },
                        Some((bk, bd)) => {
                            if bytes32_lt(&d.0, &bd.0) {
                                proof {
                                    assert forall|k2: int| 0 <= k2 < k + 1 && after_last(last, #[trigger] dist_to(all@[k2], t))
                                        implies !lex_lt(dist_to(all@[k2], t), d.0@) by {
                                        if k2 < k && lex_lt(dist_to(all@[k2], t), d.0@) {
                                            lemma_lex_transitive(dist_to(all@[k2], t), d.0@, bd.0@);
                                        }
                                        if k2 == k {
                                            lemma_lex_irreflexive(d.0@);
                                        }
                                    }
                                }
                                best = Some((k, d));
                            }
                        },
                    }
                }
                k = k + 1;
            }
            match best {
                None => {
                    proof {
                        assert forall|k2: int| 0 <= k2 < all.len() implies result@.contains(#[trigger] all@[k2]) by {
                            assert(!after_last(last, dist_to(all@[k2], t)));
                        }
                    }
                    exhausted = true;
                },
                Some((bk, bd)) => {
                    let n = all[bk];
                    let ghost old_result = result@;
                    let ghost old_last = last;
                    result.push(n);
                    last = Some(bd);
                    proof {
                        assert forall|i: int, j: int| 0 <= i < j < result.len() implies
                            lex_lt(#[trigger] dist_to(result[i], t), #[trigger] dist_to(result[j], t)) by {
                            if j == result.len() - 1 {
                                assert(result[j] == n);
                                if i < old_result.len() - 1 {
                                    assert(old_result[i] == result[i]);
                                    assert(lex_lt(dist_to(old_result[i], t), dist_to(old_result[old_result.len() - 1], t)));
                                    lemma_lex_transitive(dist_to(old_result[i], t), dist_to(old_result.last(), t), bd.0@);
                                }
                            } else {
                                assert(old_result[i] == result[i] && old_result[j] == result[j]);
                            }
                        }
                        assert forall|i: int| 0 <= i < result.len() implies all@.contains(#[trigger] result[i]) by {
                            if i == result.len() - 1 {
                                assert(all@[bk as int] == result[i]);
                            } else {
                                assert(old_result[i] == result[i]);
                            }
                        }
                        assert forall|k2: int| 0 <= k2 < all.len() && !after_last(last, #[trigger] dist_to(all@[k2], t))
                            implies result@.contains(all@[k2]) by {
                            let dk = dist_to(all@[k2], t);
                            lemma_lex_total(dk, bd.0@);
                            if dk =~= bd.0@ {
                                lemma_xor_distance_injective(all@[k2].dht_pk.0@, all@[bk as int].dht_pk.0@, t);
                                assert(k2 == bk);
                                assert(result[result.len() - 1] == all@[k2]);
                            } else {
                                assert(lex_lt(dk, bd.0@));
                                assert(!after_last(old_last, dk));
                                assert(old_result.contains(all@[k2]));
                                let w = choose|w: int| 0 <= w < old_result.len() && old_result[w] == all@[k2];
                                assert(result[w] == all@[k2]);
                            }
                        }
                    }
                },
            }
        }
        proof {
            assert forall|k2: int| 0 <= k2 < all.len() implies result@.contains(#[trigger] all@[k2])
                || (result.len() == count && forall|i: int| 0 <= i < result.len()
                    ==> lex_lt(#[trigger] dist_to(result[i], t), dist_to(all@[k2], t))) by {
                if !result@.contains(all@[k2]) && result.len() > 0 {
                    let dk = dist_to(all@[k2], t);
                    assert(after_last(last, dk));
                    lemma_left_out_is_farther(result@, t, all@[k2]);
                }
            }
        }
        result
    }
}

/// The buckets after node `j` of bucket `idx` is replaced by `n`.
spec fn final_view_after_set(v: Seq<Seq<NodeInfo>>, idx: nat, j: nat, n: NodeInfo) -> Seq<Seq<NodeInfo>> {
    v.update(idx as int, v[idx as int].update(j as int, n))
}

/// The halves of a split bucket together hold exactly the bucket's nodes.
proof fn lemma_split_part_multiset(local: Seq<u8>, s: Seq<NodeInfo>, depth: nat)
    ensures
        split_part(local, s, depth, true).to_multiset().add(split_part(local, s, depth, false).to_multiset())
            =~= s.to_multiset(),
    decreases s.len(),
{
    broadcast use {vstd::seq_lib::group_to_multiset_ensures, vstd::multiset::group_multiset_axioms};
    if s.len() > 0 {
        lemma_split_part_multiset(local, s.drop_last(), depth);
        assert(s =~= s.drop_last().push(s.last()));
    } else {
        assert(s.to_multiset().len() == 0);
        assert(split_part(local, s, depth, true).to_multiset().len() == 0);
        assert(split_part(local, s, depth, false).to_multiset().len() == 0);
    }
}

/// The flattened table after one more bucket.
proof fn lemma_concat_push(v: Seq<Seq<NodeInfo>>, b: Seq<NodeInfo>)
    ensures
        concat_buckets(v.push(b)) == concat_buckets(v) + b,
{
    assert(v.push(b).drop_last() =~= v);
}

/// Every node of every bucket is in the flattened table.
proof fn lemma_concat_contains(v: Seq<Seq<NodeInfo>>, b: int, j: int)
    requires
        0 <= b < v.len(),
        0 <= j < v[b].len(),
    ensures
        concat_buckets(v).contains(v[b][j]),
    decreases v.len(),
{
    let a = concat_buckets(v.drop_last());
    if b == v.len() - 1 {
        assert(concat_buckets(v)[a.len() + j] == v[b][j]);
    } else {
        lemma_concat_contains(v.drop_last(), b, j);
        let k = choose|k: int| 0 <= k < a.len() && a[k] == v.drop_last()[b][j];
        assert(concat_buckets(v)[k] == v[b][j]);
    }
}

/// A refused insertion neither stores nor drops a node: the table may have
/// split its last bucket, but it holds exactly the nodes it held before.
pub proof fn lemma_refused_insert_keeps_nodes(local: Seq<u8>, v: Seq<Seq<NodeInfo>>, nv: Seq<Seq<NodeInfo>>, node: NodeInfo, now: u64)
    requires
        1 <= v.len(),
        insert_outcome(local, v, nv, node, now, false),
    ensures
        concat_buckets(nv).to_multiset() == concat_buckets(v).to_multiset(),
{
    broadcast use vstd::seq_lib::lemma_multiset_commutative;
    let lz = node_lz(local, node);
    let idx = bucket_index_spec(lz, v.len());
    let bucket = v[idx as int];
    let crowded = (subnet_of(node.addr) matches Some(sub) && subnet_count(bucket, sub) >= 2);
    let known = exists|j: int| 0 <= j < bucket.len() && #[trigger] bucket[j].dht_pk.0@ == node.dht_pk.0@;
    let has_bad = exists|j: int| #[trigger] is_first_bad(bucket, j);
    let sv = split_spec(local, v, idx);
    lemma_leading_zero_bits_bound(xor_distance(local, node.dht_pk.0@), 0);
    if nv != v {
        assert(lz < 256);
        assert(!crowded);
        assert(!known);
        assert(bucket.len() >= K);
        assert(!has_bad);
        assert(nv == sv);
        assert(idx == v.len() - 1);
        let stay = split_part(local, v[idx as int], idx, true);
        let mv = split_part(local, v[idx as int], idx, false);
        let vd = v.drop_last();
        assert(v.update(idx as int, stay) =~= vd.push(stay));
        assert(v =~= vd.push(v[idx as int]));
        lemma_concat_push(vd.push(stay), mv);
        lemma_concat_push(vd, stay);
        lemma_concat_push(vd, v[idx as int]);
        lemma_split_part_multiset(local, v[idx as int], idx);
        assert(concat_buckets(vd) + stay + mv =~= concat_buckets(vd) + (stay + mv));
        assert(concat_buckets(nv).to_multiset() =~= concat_buckets(v).to_multiset());
    }
}

/// An accepted node is in the table afterwards, under its key and with the
/// address it was offered from.
pub proof fn lemma_accepted_insert_stores_node(local: Seq<u8>, v: Seq<Seq<NodeInfo>>, nv: Seq<Seq<NodeInfo>>, node: NodeInfo, now: u64)
    requires
        1 <= v.len(),
        insert_outcome(local, v, nv, node, now, true),
    ensures
        exists|n: NodeInfo| #[trigger] concat_buckets(nv).contains(n) && n.dht_pk.0@ == node.dht_pk.0@ && n.addr == node.addr,
{
    let lz = node_lz(local, node);
    let idx = bucket_index_spec(lz, v.len());
    let bucket = v[idx as int];
    let crowded = (subnet_of(node.addr) matches Some(sub) && subnet_count(bucket, sub) >= 2);
    let known = exists|j: int| 0 <= j < bucket.len() && #[trigger] bucket[j].dht_pk.0@ == node.dht_pk.0@;
    let has_bad = exists|j: int| #[trigger] is_first_bad(bucket, j);
    let sv = split_spec(local, v, idx);
    let idx2 = bucket_index_spec(lz, sv.len());
    lemma_leading_zero_bits_bound(xor_distance(local, node.dht_pk.0@), 0);
    assert(idx < v.len());
    if known {
        let j = choose|j: int| 0 <= j < bucket.len() && bucket[j].dht_pk.0@ == node.dht_pk.0@
            && nv == v.update(idx as int, bucket.update(j, seen_again(bucket[j], node.addr, now)));
        lemma_concat_contains(nv, idx as int, j);
        assert(nv[idx as int][j] == seen_again(bucket[j], node.addr, now));
    } else if bucket.len() < K {
        lemma_concat_contains(nv, idx as int, bucket.len() as int);
        assert(nv[idx as int][bucket.len() as int] == node);
    } else if has_bad {
        let j = choose|j: int| is_first_bad(bucket, j) && nv == v.update(idx as int, bucket.update(j, node));
        lemma_concat_contains(nv, idx as int, j);
        assert(nv[idx as int][j] == node);
    } else {
        assert(idx2 < sv.len());
        assert(nv == sv.update(idx2 as int, sv[idx2 as int].push(node)));
        lemma_concat_contains(nv, idx2 as int, sv[idx2 as int].len() as int);
        assert(nv[idx2 as int][sv[idx2 as int].len() as int] == node);
    }
}

/// The local node's distance to itself has no set bit.
proof fn lemma_self_distance(local: Seq<u8>)
    requires
        local.len() == 32,
    ensures
        leading_zero_bits(xor_distance(local, local)) == 256,
{
    let d = xor_distance(local, local);
    assert forall|i: int| 0 <= i < 256 implies #[trigger] hash_bit(d, i) == 0 by {
        let x: u8 = local[i / 8];
        assert(x ^ x == 0u8) by (bit_vector);
        assert(forall|t: u8| (0u8 >> t) & 1u8 == 0u8) by (bit_vector);
        assert(d[i / 8] == 0u8);
    }
    lemma_leading_zero_bits(d, 256);
}

/// What one insertion does to the table's nodes: the local node is
/// refused; an accepted node is stored under its key with the address it
/// was offered from; a refused node leaves the table holding exactly the
/// nodes it held (a split may regroup them into buckets).
pub proof fn lemma_insert_law(local: Seq<u8>, v: Seq<Seq<NodeInfo>>, nv: Seq<Seq<NodeInfo>>, node: NodeInfo, now: u64, inserted: bool)
    requires
        local.len() == 32,
        1 <= v.len(),
        insert_outcome(local, v, nv, node, now, inserted),
    ensures
        node.dht_pk.0@ == local ==> !inserted,
        inserted ==> exists|n: NodeInfo| #[trigger] concat_buckets(nv).contains(n) && n.dht_pk.0@ == node.dht_pk.0@ && n.addr == node.addr,
        !inserted ==> concat_buckets(nv).to_multiset() == concat_buckets(v).to_multiset(),
{
    if node.dht_pk.0@ == local {
        lemma_self_distance(local);
    }
    if inserted {
        lemma_accepted_insert_stores_node(local, v, nv, node, now);
    } else {
        lemma_refused_insert_keeps_nodes(local, v, nv, node, now);
    }
}

/// Among nodes of which one at `j` has a reputation below -10, there is a
/// first such node.
proof fn lemma_first_bad_exists(s: Seq<NodeInfo>, j: int)
    requires
        0 <= j < s.len(),
        s[j].reputation < -10,
    ensures
        exists|f: int| #[trigger] is_first_bad(s, f),
    decreases j,
{
    if forall|k: int| 0 <= k < j ==> #[trigger] s[k].reputation >= -10 {
        assert(is_first_bad(s, j));
    } else {
        let k = choose|k: int| 0 <= k < j && #[trigger] s[k].reputation < -10;
        lemma_first_bad_exists(s, k);
    }
}

/// A full bucket makes room for a new node by evicting a failing peer: when
/// a node that is neither the local node, nor known, nor from a /24 subnet
/// already holding two nodes of its bucket, meets a full bucket in which
/// some node's reputation is below -10, it is accepted, and it replaces the
/// earliest such node of the bucket, wherever that node stands; nothing
/// else changes.
pub proof fn lemma_full_bucket_evicts_first_failing(local: Seq<u8>, v: Seq<Seq<NodeInfo>>, nv: Seq<Seq<NodeInfo>>, node: NodeInfo, now: u64, inserted: bool, bad: int)
    requires
        1 <= v.len(),
        insert_outcome(local, v, nv, node, now, inserted),
        node_lz(local, node) < 256,
        ({
            let bucket = v[bucket_index_spec(node_lz(local, node), v.len()) as int];
            &&& subnet_of(node.addr) matches Some(sub) ==> subnet_count(bucket, sub) < 2
            &&& forall|k: int| 0 <= k < bucket.len() ==> #[trigger] bucket[k].dht_pk.0@ != node.dht_pk.0@
            &&& bucket.len() >= K
            &&& 0 <= bad < bucket.len()
            &&& bucket[bad].reputation < -10
        }),
    ensures
        inserted,
        ({
            let idx = bucket_index_spec(node_lz(local, node), v.len());
            let bucket = v[idx as int];
            exists|j: int| 0 <= j <= bad && bucket[j].reputation < -10
                && (forall|k: int| 0 <= k < j ==> #[trigger] bucket[k].reputation >= -10)
                && nv == v.update(idx as int, #[trigger] bucket.update(j, node))
        }),
{
    let idx = bucket_index_spec(node_lz(local, node), v.len());
    let bucket = v[idx as int];
    lemma_first_bad_exists(bucket, bad);
    let j = choose|j: int| is_first_bad(bucket, j) && nv == v.update(idx as int, bucket.update(j, node));
    if j > bad {
        assert(bucket[bad].reputation >= -10);
    }
}

/// No two nodes of `s` share a public key or an IPv4 /24 subnet.
pub open spec fn spread(s: Seq<NodeInfo>) -> bool {
    &&& pks_distinct(s)
    &&& forall|i: int, j: int| 0 <= i < s.len() && 0 <= j < s.len() && i != j && subnet_of(s[i].addr) is Some
        ==> #[trigger] subnet_of(s[i].addr) != #[trigger] subnet_of(s[j].addr)
}

/// A subnet that no node of `s` is in is counted zero times.
proof fn lemma_subnet_count_absent(s: Seq<NodeInfo>, sub: Seq<u8>)
    requires
        forall|i: int| 0 <= i < s.len() ==> subnet_of(#[trigger] s[i].addr) != Some(sub),
    ensures
        subnet_count(s, sub) == 0,
    decreases s.len(),
{
    if s.len() > 0 {
        assert(subnet_of(s[s.len() - 1].addr) != Some(sub));
        lemma_subnet_count_absent(s.drop_last(), sub);
    }
}

/// Past a first set bit of 256, every bit from `i` on is clear.
proof fn lemma_no_set_bit_from(d: Seq<u8>, i: nat, k: int)
    requires
        first_set_bit_from(d, i) == 256,
        i <= k < 256,
    ensures
        hash_bit(d, k) == 0,
    decreases 256 - i,
{
    if i < k {
        lemma_no_set_bit_from(d, i + 1, k);
    }
}

/// Only the local key is at distance zero from the local key.
pub proof fn lemma_distance_zero_is_self(local: Seq<u8>, pk: Seq<u8>)
    requires
        local.len() == 32,
        pk.len() == 32,
        leading_zero_bits(xor_distance(local, pk)) == 256,
    ensures
        pk == local,
{
    let d = xor_distance(local, pk);
    assert forall|b: int| 0 <= b < 32 implies pk[b] == local[b] by {
        let x: u8 = d[b];
        lemma_no_set_bit_from(d, 0, 8 * b + 0);
        lemma_no_set_bit_from(d, 0, 8 * b + 1);
        lemma_no_set_bit_from(d, 0, 8 * b + 2);
        lemma_no_set_bit_from(d, 0, 8 * b + 3);
        lemma_no_set_bit_from(d, 0, 8 * b + 4);
        lemma_no_set_bit_from(d, 0, 8 * b + 5);
        lemma_no_set_bit_from(d, 0, 8 * b + 6);
        lemma_no_set_bit_from(d, 0, 8 * b + 7);
        assert(x == 0u8) by (bit_vector)
            requires
                (x >> 7u8) & 1u8 == 0u8,
                (x >> 6u8) & 1u8 == 0u8,
                (x >> 5u8) & 1u8 == 0u8,
                (x >> 4u8) & 1u8 == 0u8,
                (x >> 3u8) & 1u8 == 0u8,
                (x >> 2u8) & 1u8 == 0u8,
                (x >> 1u8) & 1u8 == 0u8,
                (x >> 0u8) & 1u8 == 0u8,
        ;
        let l: u8 = local[b];
        let p: u8 = pk[b];
        assert(x == l ^ p);
        assert(l == p) by (bit_vector)
            requires
                l ^ p == 0u8,
        ;
    }
    assert(pk =~= local);
}

/// Offering nodes one by one to a table of a single bucket, where the
/// bucket and the nodes together are at most `K` nodes, none the local
/// node, and no two share a key or a /24 subnet: every node is taken, in
/// the order offered, after those already there.
pub proof fn lemma_offer_into_single_bucket(local: Seq<u8>, b: Seq<NodeInfo>, nodes: Seq<NodeInfo>, now: u64, nv: Seq<Seq<NodeInfo>>)
    requires
        offered_in_turn(local, seq![b], nodes, now, nv),
        b.len() + nodes.len() <= K,
        spread(b + nodes),
        forall|i: int| 0 <= i < (b + nodes).len() ==> node_lz(local, #[trigger] (b + nodes)[i]) < 256,
    ensures
        nv == seq![b + nodes],
    decreases nodes.len(),
{
    if nodes.len() == 0 {
        assert(b + nodes =~= b);
    } else {
        let d = nodes.drop_last();
        let x = nodes.last();
        let all = b + nodes;
        let prev = b + d;
        assert(all.drop_last() =~= prev);
        assert(all =~= prev.push(x));
        assert forall|i: int| 0 <= i < prev.len() implies node_lz(local, #[trigger] prev[i]) < 256 by {
            assert(prev[i] == all[i]);
        }
        assert(spread(prev)) by {
            assert forall|i: int, j: int| 0 <= i < prev.len() && 0 <= j < prev.len() && i != j
                implies #[trigger] prev[i].dht_pk.0@ != #[trigger] prev[j].dht_pk.0@ by {
                assert(prev[i] == all[i] && prev[j] == all[j]);
            }
            assert forall|i: int, j: int| 0 <= i < prev.len() && 0 <= j < prev.len() && i != j && subnet_of(prev[i].addr) is Some
                implies #[trigger] subnet_of(prev[i].addr) != #[trigger] subnet_of(prev[j].addr) by {
                assert(prev[i] == all[i] && prev[j] == all[j]);
            }
        }
        let (mid, ins) = choose|mid: Seq<Seq<NodeInfo>>, ins: bool| offered_in_turn(local, seq![b], d, now, mid)
            && #[trigger] insert_outcome(local, mid, nv, x, now, ins);
        lemma_offer_into_single_bucket(local, b, d, now, mid);
        assert(mid == seq![prev]);
        let last = all.len() - 1;
        assert(all[last] == x);
        assert(node_lz(local, x) < 256);
        assert(bucket_index_spec(node_lz(local, x), 1) == 0);
        assert(mid[0] == prev);
        assert forall|i: int| 0 <= i < prev.len() implies #[trigger] prev[i].dht_pk.0@ != x.dht_pk.0@ by {
            assert(prev[i] == all[i]);
        }
        if subnet_of(x.addr) is Some {
            let sub = subnet_of(x.addr)->0;
            assert forall|i: int| 0 <= i < prev.len() implies subnet_of(#[trigger] prev[i].addr) != Some(sub) by {
                assert(prev[i] == all[i]);
                assert(subnet_of(all[last].addr) != subnet_of(all[i].addr));
            }
            lemma_subnet_count_absent(prev, sub);
        }
        assert(nv == mid.update(0, prev.push(x)));
        assert(nv =~= seq![all]);
    }
}

} // verus!
