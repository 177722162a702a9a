//! Gateway selection for the node's own lease set.
use vstd::prelude::*;
use crate::dht::node::{DhtPublicKey, LeaseSet, NodeInfo};
use crate::dht::routing::{closest_ok, RoutingTable};
use crate::node::handler::{copy_lease, NodeCore};

verus! {

/// How many nodes around our own key are considered as gateways.
pub const GATEWAY_CANDIDATES: usize = 20;

/// How many gateways a lease set names.
pub const GATEWAY_COUNT: usize = 3;

/// How long a published lease set stays valid, in seconds.
pub const LEASE_LIFETIME_SECS: u64 = 3600;

/// Position `a` of `cs` ranks before position `b` when its reputation is
/// higher, or equal and it comes first.
pub open spec fn ranks_before(cs: Seq<NodeInfo>, a: int, b: int) -> bool {
    cs[a].reputation > cs[b].reputation || (cs[a].reputation == cs[b].reputation && a < b)
}

/// `picked` lists, best first, the positions of the `n` best-ranked
/// entries of `cs` (all of them when `cs` has fewer).
pub open spec fn top_ranked(cs: Seq<NodeInfo>, n: nat, picked: Seq<int>) -> bool {
    &&& picked.len() == if cs.len() < n { cs.len() } else { n }
    &&& forall|k: int| 0 <= k < picked.len() ==> 0 <= #[trigger] picked[k] < cs.len()
    &&& forall|k: int, l: int| 0 <= k < l < picked.len() ==> ranks_before(cs, #[trigger] picked[k], #[trigger] picked[l])
    &&& forall|j: int, k: int| 0 <= j < cs.len() && !picked.contains(j) && 0 <= k < picked.len()
        ==> #[trigger] ranks_before(cs, picked[k], j)
}

/// `r` holds, best first, the `n` entries of `cs` with the highest
/// reputation; among equals the earlier entry wins.
pub open spec fn best_by_reputation(cs: Seq<NodeInfo>, n: nat, r: Seq<NodeInfo>) -> bool {
    exists|picked: Seq<int>| #[trigger] top_ranked(cs, n, picked) && r == picked.map_values(|i: int| cs[i])
}

/// The `n` entries of `cs` with the highest reputation, best first; a
/// stable ranking, so among equal reputations the earlier entry wins.
pub fn top_by_reputation(cs: &Vec<NodeInfo>, n: usize) -> (r: Vec<NodeInfo>)
    ensures
        best_by_reputation(cs@, n as nat, r@),
        r@.len() == if cs@.len() < n { cs@.len() } else { n as nat },
{
    let ghost s = cs@;
    let mut best: Vec<usize> = Vec::new();
    let mut i: usize = 0;
    while i < cs.len()
        invariant
            s == cs@,
            i <= s.len(),
            best@.len() == if i < n { i as int } else { n as int },
            forall|k: int| 0 <= k < best@.len() ==> #[trigger] best@[k] < i,
            forall|k: int, l: int| 0 <= k < l < best@.len() ==> ranks_before(s, #[trigger] best@[k] as int, #[trigger] best@[l] as int),
            forall|j: int| 0 <= j < i ==> #[trigger] best@.contains(j as usize)
                || (best@.len() == n && forall|k: int| 0 <= k < best@.len() ==> ranks_before(s, #[trigger] best@[k] as int, j)),
        decreases s.len() - i,
    {
        let mut k: usize = 0;
        while k < best.len() && cs[best[k]].reputation >= cs[i].reputation
            invariant
                s == cs@,
                i < s.len(),
                k <= best@.len(),
                forall|m: int| 0 <= m < best@.len() ==> #[trigger] best@[m] < i,
                forall|m: int| 0 <= m < k ==> s[#[trigger] best@[m] as int].reputation >= s[i as int].reputation,
            decreases best@.len() - k,
        {
            k = k + 1;
        }
        let ghost old_best = best@;
        if k < n {
            best.insert(k, i);
            best.truncate(n);
            proof {
                let ins = old_best.insert(k as int, i);
                assert(best@ =~= if ins.len() <= n { ins } else { ins.subrange(0, n as int) });
                assert forall|m: int| 0 <= m < k implies ranks_before(s, #[trigger] old_best[m] as int, i as int) by {}
                assert forall|m: int| k <= m < old_best.len() implies ranks_before(s, i as int, #[trigger] old_best[m] as int) by {
                    if m > k {
                        assert(ranks_before(s, old_best[k as int] as int, old_best[m] as int));
                    }
                }
                assert forall|a: int, b: int| 0 <= a < b < best@.len()
                    implies ranks_before(s, #[trigger] best@[a] as int, #[trigger] best@[b] as int) by {
                    assert(best@[a] == ins[a] && best@[b] == ins[b]);
                    if b < k {
                    } else if b == k {
                    } else if a < k {
                        assert(ranks_before(s, old_best[a] as int, i as int));
                        assert(ranks_before(s, i as int, old_best[b - 1] as int));
                    } else if a == k {
                    } else {
                        assert(ranks_before(s, old_best[a - 1] as int, old_best[b - 1] as int));
                    }
                }
                assert forall|j: int| 0 <= j < i + 1 implies #[trigger] best@.contains(j as usize)
                    || (best@.len() == n && forall|m: int| 0 <= m < best@.len() ==> ranks_before(s, #[trigger] best@[m] as int, j)) by {
                    if j == i {
                        assert(best@[k as int] == i);
                    } else if old_best.contains(j as usize) {
                        let p = choose|p: int| 0 <= p < old_best.len() && old_best[p] == j as usize;
                        if p < k {
                            assert(best@[p] == j as usize);
                        } else if p + 1 < best@.len() {
                            assert(best@[p + 1] == j as usize);
                        } else {
                            // j fell off the end: it ranks after every kept entry.
                            assert(best@.len() == n);
                            assert forall|m: int| 0 <= m < best@.len() implies ranks_before(s, #[trigger] best@[m] as int, j) by {
                                if m < k {
                                    assert(ranks_before(s, old_best[m] as int, old_best[p] as int));
                                } else if m == k {
                                } else {
                                    assert(ranks_before(s, old_best[m - 1] as int, old_best[p] as int));
                                }
                            }
                        }
                    } else {
                        assert forall|m: int| 0 <= m < best@.len() implies ranks_before(s, #[trigger] best@[m] as int, j) by {
                            if m < k {
                                assert(ranks_before(s, old_best[m] as int, j));
                            } else if m == k {
                                assert(ranks_before(s, i as int, old_best[k as int] as int));
                                assert(ranks_before(s, old_best[k as int] as int, j));
                            } else {
                                assert(ranks_before(s, old_best[m - 1] as int, j));
                            }
                        }
                    }
                }
            }
        } else {
            proof {
                assert forall|m: int| 0 <= m < best@.len() implies ranks_before(s, #[trigger] best@[m] as int, i as int) by {}
            }
        }
        i = i + 1;
    }
    let ghost picked = best@.map_values(|x: usize| x as int);
    let mut r: Vec<NodeInfo> = Vec::new();
    let mut k: usize = 0;
    while k < best.len()
        invariant
            s == cs@,
            best@.len() <= s.len(),
            forall|m: int| 0 <= m < best@.len() ==> #[trigger] best@[m] < s.len(),
            k <= best@.len(),
            r@ == picked.take(k as int).map_values(|x: int| s[x]),
            picked == best@.map_values(|x: usize| x as int),
        decreases best@.len() - k,
    {
        r.push(cs[best[k]]);
        k = k + 1;
        assert(r@ =~= picked.take(k as int).map_values(|x: int| s[x]));
    }
    proof {
        assert(picked.take(k as int) =~= picked);
        assert forall|j: int| 0 <= j < s.len() && !picked.contains(j) implies !best@.contains(j as usize) by {
            if best@.contains(j as usize) {
                let p = choose|p: int| 0 <= p < best@.len() && best@[p] == j as usize;
                assert(picked[p] == j);
            }
        }
        assert forall|j: int, m: int| 0 <= j < s.len() && !picked.contains(j) && 0 <= m < picked.len()
            implies #[trigger] ranks_before(s, picked[m], j) by {
            assert(!best@.contains(j as usize));
            assert(ranks_before(s, best@[m] as int, j));
        }
        assert forall|a: int, b: int| 0 <= a < b < picked.len() implies ranks_before(s, #[trigger] picked[a], #[trigger] picked[b]) by {
            assert(ranks_before(s, best@[a] as int, best@[b] as int));
        }
        assert(top_ranked(s, n as nat, picked));
    }
    r
}

/// Picks the gateways of our lease set among the nodes closest to
/// `identity`: the three with the highest reputation, or `None` when fewer
/// than three are known.
pub fn select_gateways(table: &RoutingTable, identity: &DhtPublicKey) -> (r: Option<Vec<NodeInfo>>)
    requires
        table.wf(),
    ensures
        exists|cs: Seq<NodeInfo>| #[trigger] closest_ok(table.table_nodes(), identity.0@, GATEWAY_CANDIDATES as nat, cs)
            && match r {
                None => cs.len() < GATEWAY_COUNT,
                Some(g) => cs.len() >= GATEWAY_COUNT && g@.len() == GATEWAY_COUNT
                    && best_by_reputation(cs, GATEWAY_COUNT as nat, g@),
            },
{
    let candidates = table.find_closest(identity, GATEWAY_CANDIDATES);
    let gateways = top_by_reputation(&candidates, GATEWAY_COUNT);
    if gateways.len() < GATEWAY_COUNT {
        None
    } else {
        Some(gateways)
    }
}

impl NodeCore {
    /// Renews the node's own lease set at `now_secs` (seconds): three
    /// gateways chosen by `select_gateways` around our key, valid for an
    /// hour. Returns it and keeps it as the current lease; `None`, and no
    /// change, when fewer than three candidates are known.
    pub fn renew_lease(&mut self, now_secs: u64) -> (r: Option<LeaseSet>)
        requires
            old(self).wf(),
            now_secs <= u64::MAX - LEASE_LIFETIME_SECS,
        ensures
            final(self).wf(),
            final(self).keypair == old(self).keypair,
            final(self).routing_table == old(self).routing_table,
            final(self).blob_store == old(self).blob_store,
            final(self).rate_limiter == old(self).rate_limiter,
            final(self).lease_store == old(self).lease_store,
            exists|cs: Seq<NodeInfo>| #[trigger] closest_ok(old(self).routing_table.table_nodes(),
                old(self).routing_table.local_key.0@, GATEWAY_CANDIDATES as nat, cs)
                && match r {
                    None => cs.len() < GATEWAY_COUNT && final(self).current_lease == old(self).current_lease,
                    Some(l) => {
                        &&& cs.len() >= GATEWAY_COUNT
                        &&& l.gateways@.len() == GATEWAY_COUNT
                        &&& best_by_reputation(cs, GATEWAY_COUNT as nat, l.gateways@)
                        &&& l.dht_pk == old(self).routing_table.local_key
                        &&& l.expiration == now_secs + LEASE_LIFETIME_SECS
                        &&& final(self).current_lease matches Some(c) && c.dht_pk == l.dht_pk
                            && c.gateways@ == l.gateways@ && c.expiration == l.expiration
                    },
                },
    {
        let identity = self.routing_table.local_key;
        match select_gateways(&self.routing_table, &identity) {
            None => None,
            Some(gateways) => {
                let lease = LeaseSet { dht_pk: identity, gateways, expiration: now_secs + LEASE_LIFETIME_SECS };
                self.current_lease = Some(copy_lease(&lease));
                Some(lease)
            },
        }
    }

    /// The lease set stored for `target`, if any.
    pub fn stored_lease(&self, target: &DhtPublicKey) -> (r: Option<LeaseSet>)
        ensures
            r is Some <==> self.lease_store@.contains_key(target.0@),
            r matches Some(l) ==> l.dht_pk == self.lease_store@[target.0@].dht_pk
                && l.gateways@ == self.lease_store@[target.0@].gateways@
                && l.expiration == self.lease_store@[target.0@].expiration,
    {
        match self.lease_store.get(&target.0) {
            Some(l) => Some(copy_lease(l)),
            None => None,
        }
    }
}

} // verus!
