use vstd::prelude::*;
use std::collections::BTreeMap;
use crate::bytes::bytes_to_vec;
use crate::clock::unix_millis;
use crate::btree_keys::sorted_keys;

verus! {


/// Attempts after which a message is given up on.
pub const MAX_RETRIES: u32 = 5;

/// Time between retransmissions, in milliseconds.
pub const RETRY_INTERVAL_MS: u64 = 2000;

/// A sent message that awaits its ACK.
#[derive(Debug)]
pub struct PendingMessage {
    pub sequence_number: u64,
    pub data: Vec<u8>,
    /// When the message was last sent (milliseconds since the Unix epoch).
    pub last_sent: u64,
    pub retries: u32,
}

/// The message is due for another send at `now`: it has retries left and
/// was last sent at least the retry interval ago.
pub open spec fn due(m: PendingMessage, now: u64) -> bool {
    &&& m.retries < MAX_RETRIES
    &&& now >= m.last_sent
    &&& now - m.last_sent >= RETRY_INTERVAL_MS
}

/// The message after it was sent again at `now`.
pub open spec fn resent(m: PendingMessage, now: u64) -> PendingMessage {
    PendingMessage { sequence_number: m.sequence_number, data: m.data, last_sent: now, retries: (m.retries + 1) as u32 }
}

/// The number of consecutive keys of `m` starting at `n`.
pub open spec fn run_len<V>(m: Map<u64, V>, n: int) -> nat
    decreases u64::MAX + 1 - n,
{
    if 0 <= n <= u64::MAX && m.contains_key(n as u64) {
        1 + run_len(m, n + 1)
    } else {
        0
    }
}

/// Every packet held back in `buffer` is ahead of the next one expected:
/// the buffer holds only early arrivals.
pub open spec fn buffer_ahead(buffer: Map<u64, Vec<u8>>, next: u64) -> bool {
    forall|k: u64| #[trigger] buffer.contains_key(k) ==> k > next
}

/// Keys from `n` (inclusive) to `e` (exclusive).
pub open spec fn key_range(n: int, e: int) -> Set<u64> {
    Set::new(|k: u64| n <= k < e)
}

proof fn lemma_run_len_bound<V>(m: Map<u64, V>, n: int)
    requires
        0 <= n <= u64::MAX + 1,
    ensures
        n + run_len(m, n) <= u64::MAX + 1,
        forall|k: u64| n <= k < n + run_len(m, n) ==> #[trigger] m.contains_key(k),
        n + run_len(m, n) <= u64::MAX ==> !m.contains_key((n + run_len(m, n)) as u64),
    decreases u64::MAX + 1 - n,
{
    if n <= u64::MAX && m.contains_key(n as u64) {
        lemma_run_len_bound(m, n + 1);
        assert(run_len(m, n) == 1 + run_len(m, n + 1));
        assert forall|k: u64| n <= k < n + run_len(m, n) implies #[trigger] m.contains_key(k) by {
            if k > n {
                assert(n + 1 <= k < n + 1 + run_len(m, n + 1));
            }
        }
    }
}

/// The keys of `ks`, in order, whose messages are due at `now`.
pub open spec fn due_keys(m: Map<u64, PendingMessage>, ks: Seq<u64>, now: u64) -> Seq<u64>
    decreases ks.len(),
{
    if ks.len() == 0 {
        Seq::empty()
    } else {
        let r = due_keys(m, ks.drop_last(), now);
        if due(m[ks.last()], now) { r.push(ks.last()) } else { r }
    }
}

proof fn lemma_due_keys(m: Map<u64, PendingMessage>, ks: Seq<u64>, now: u64)
    requires
        forall|a: int, b: int| 0 <= a < b < ks.len() ==> ks[a] < ks[b],
    ensures
        forall|b: int| 0 <= b < due_keys(m, ks, now).len() ==> ks.contains(#[trigger] due_keys(m, ks, now)[b])
            && due(m[due_keys(m, ks, now)[b]], now),
        forall|a: int| 0 <= a < ks.len() && due(m[#[trigger] ks[a]], now) ==> due_keys(m, ks, now).contains(ks[a]),
        forall|a: int, b: int| 0 <= a < b < due_keys(m, ks, now).len() ==> due_keys(m, ks, now)[a] < due_keys(m, ks, now)[b],
        ks.len() > 0 ==> forall|b: int| 0 <= b < due_keys(m, ks, now).len() ==> due_keys(m, ks, now)[b] <= ks.last(),
    decreases ks.len(),
{
    if ks.len() > 0 {
        let t = ks.drop_last();
        lemma_due_keys(m, t, now);
        let r = due_keys(m, t, now);
        let d = due_keys(m, ks, now);
        assert forall|b: int| 0 <= b < d.len() implies ks.contains(#[trigger] d[b]) && due(m[d[b]], now) by {
            if b < r.len() {
                assert(d[b] == r[b]);
                let w = choose|w: int| 0 <= w < t.len() && t[w] == r[b];
                assert(ks[w] == d[b]);
            } else {
                assert(ks[ks.len() - 1] == d[b]);
            }
        }
        assert forall|a: int| 0 <= a < ks.len() && due(m[#[trigger] ks[a]], now) implies d.contains(ks[a]) by {
            if a < t.len() {
                assert(t[a] == ks[a]);
                assert(r.contains(t[a]));
                let w = choose|w: int| 0 <= w < r.len() && r[w] == t[a];
                assert(d[w] == ks[a]);
            } else {
                assert(d[d.len() - 1] == ks[a]);
            }
        }
        if t.len() > 0 {
            assert(ks[t.len() - 1] < ks[ks.len() - 1]);
        }
        assert forall|b: int| 0 <= b < d.len() implies d[b] <= ks.last() by {
            if b < r.len() {
                assert(d[b] == r[b]);
            }
        }
        assert forall|a: int, b: int| 0 <= a < b < d.len() implies d[a] < d[b] by {
            if b < r.len() {
                assert(d[a] == r[a] && d[b] == r[b]);
            } else {
                assert(d[a] == r[a]);
                assert(t.len() > 0);
            }
        }
    }
}

/// Reliable in-order delivery queue with ACK tracking and retransmission.
/// Mirrors the Tox lossless packet mechanism but over our Noise-encrypted channel.
pub struct LosslessQueue {
    /// Messages we have sent but not yet received an ACK for
    pub unacked_messages: BTreeMap<u64, PendingMessage>,
    /// Tracks our current send sequence number
    pub next_send_seq: u64,
    /// The next sequence number to deliver (for ordered delivery)
    pub next_recv_seq: u64,
    /// Buffer for out-of-order packets that arrived before we're ready
    pub recv_buffer: BTreeMap<u64, Vec<u8>>,
}

/// `post` is `pre` after a retransmission pass at `now` that handed out
/// `out`: the messages due at `now`, in increasing sequence order with their
/// data, each of them marked as sent again at `now`, the rest unchanged.
pub open spec fn retransmission_at(pre: LosslessQueue, post: LosslessQueue, out: Seq<(u64, Vec<u8>)>, now: u64) -> bool {
    let m = pre.unacked_messages@;
    &&& post.unacked_messages@.dom() == m.dom()
    &&& forall|k: u64| #[trigger] m.contains_key(k) ==> post.unacked_messages@[k] ==
            if due(m[k], now) { resent(m[k], now) } else { m[k] }
    &&& forall|i: int| 0 <= i < out.len() ==> m.contains_key(#[trigger] out[i].0)
            && due(m[out[i].0], now)
            && out[i].1@ == m[out[i].0].data@
    &&& forall|k: u64| #[trigger] m.contains_key(k) && due(m[k], now)
            ==> exists|i: int| 0 <= i < out.len() && out[i].0 == k
    &&& forall|i: int, j: int| 0 <= i < j < out.len() ==> out[i].0 < out[j].0
    &&& post.next_send_seq == pre.next_send_seq
    &&& post.next_recv_seq == pre.next_recv_seq
    &&& post.recv_buffer@ == pre.recv_buffer@
}

/// A message is sent at most `1 + MAX_RETRIES` times: a retransmission
/// pass keeps every retry count within `MAX_RETRIES`.
pub proof fn lemma_retries_stay_bounded(m: PendingMessage, now: u64)
    requires
        m.retries <= MAX_RETRIES,
    ensures
        (if due(m, now) { resent(m, now) } else { m }).retries <= MAX_RETRIES,
{
}

impl Default for LosslessQueue {
    /// The same as `LosslessQueue::new`.
    fn default() -> (q: Self)
        ensures
            q.unacked_messages@ == Map::<u64, PendingMessage>::empty(),
            q.next_send_seq == 0,
            q.next_recv_seq == 0,
            q.recv_buffer@ == Map::<u64, Vec<u8>>::empty(),
    {
        LosslessQueue::new()
    }
}

impl LosslessQueue {
    /// An empty queue expecting sequence number 0 both ways.
    pub fn new() -> (q: Self)
        ensures
            q.unacked_messages@ == Map::<u64, PendingMessage>::empty(),
            q.next_send_seq == 0,
            q.next_recv_seq == 0,
            q.recv_buffer@ == Map::<u64, Vec<u8>>::empty(),
    {
        LosslessQueue {
            unacked_messages: BTreeMap::new(),
            next_send_seq: 0,
            next_recv_seq: 0,
            recv_buffer: BTreeMap::new(),
        }
    }

    /// Enqueues an outgoing message sent now and assigns it a sequence number.
    pub fn enqueue_outgoing(&mut self, data: Vec<u8>) -> (seq: u64)
        requires
            old(self).next_send_seq < u64::MAX,
        ensures
            seq == old(self).next_send_seq,
            final(self).next_send_seq == old(self).next_send_seq + 1,
            final(self).unacked_messages@.dom() == old(self).unacked_messages@.dom().insert(seq),
            final(self).unacked_messages@[seq].sequence_number == seq,
            final(self).unacked_messages@[seq].data == data,
            final(self).unacked_messages@[seq].retries == 0,
            forall|k: u64| k != seq && old(self).unacked_messages@.contains_key(k)
                ==> final(self).unacked_messages@[k] == old(self).unacked_messages@[k],
            final(self).next_recv_seq == old(self).next_recv_seq,
            final(self).recv_buffer@ == old(self).recv_buffer@,
    {
        let now = unix_millis();
        self.enqueue_outgoing_at(data, now)
    }

    /// Enqueues an outgoing message sent at `now` and assigns it the next
    /// sequence number.
    pub fn enqueue_outgoing_at(&mut self, data: Vec<u8>, now: u64) -> (seq: u64)
        requires
            old(self).next_send_seq < u64::MAX,
        ensures
            seq == old(self).next_send_seq,
            final(self).next_send_seq == old(self).next_send_seq + 1,
            final(self).unacked_messages@ == old(self).unacked_messages@.insert(seq,
                PendingMessage { sequence_number: seq, data, last_sent: now, retries: 0 }),
            final(self).next_recv_seq == old(self).next_recv_seq,
            final(self).recv_buffer@ == old(self).recv_buffer@,
    {
        let seq = self.next_send_seq;
        self.unacked_messages.insert(seq, PendingMessage { sequence_number: seq, data, last_sent: now, retries: 0 });
        self.next_send_seq = self.next_send_seq + 1;
        seq
    }

    /// Marks a sequence number as acknowledged, removing it from the retry queue.
    pub fn receive_ack(&mut self, seq: u64)
        ensures
            final(self).unacked_messages@ == old(self).unacked_messages@.remove(seq),
            final(self).next_send_seq == old(self).next_send_seq,
            final(self).next_recv_seq == old(self).next_recv_seq,
            final(self).recv_buffer@ == old(self).recv_buffer@,
    {
        self.unacked_messages.remove(&seq);
    }

    /// Delivers an incoming packet, buffering out-of-order arrivals.
    /// Returns the in-order payloads now ready for the application: the run
    /// of consecutive sequence numbers from the next expected one. A packet
    /// whose sequence number was already delivered is dropped.
    pub fn receive_packet(&mut self, seq: u64, data: Vec<u8>) -> (ready: Vec<Vec<u8>>)
        requires
            seq >= old(self).next_recv_seq ==> exists|k: u64| k >= old(self).next_recv_seq
                && !#[trigger] old(self).recv_buffer@.insert(seq, data).contains_key(k),
        ensures
            seq < old(self).next_recv_seq ==> ready@.len() == 0
                && final(self).recv_buffer@ == old(self).recv_buffer@
                && final(self).next_recv_seq == old(self).next_recv_seq,
            seq >= old(self).next_recv_seq ==> ({
                let buf = old(self).recv_buffer@.insert(seq, data);
                let n = old(self).next_recv_seq as int;
                let r = run_len(buf, n);
                &&& ready@.len() == r
                &&& forall|i: int| 0 <= i < r ==> #[trigger] ready@[i] == buf[(n + i) as u64]
                &&& final(self).next_recv_seq == n + r
                &&& final(self).recv_buffer@ == buf.remove_keys(key_range(n, n + r))
            }),
            buffer_ahead(old(self).recv_buffer@, old(self).next_recv_seq)
                ==> buffer_ahead(final(self).recv_buffer@, final(self).next_recv_seq),
            final(self).unacked_messages@ == old(self).unacked_messages@,
            final(self).next_send_seq == old(self).next_send_seq,
    {
        if seq < self.next_recv_seq {
            return Vec::new();
        }
        let ghost buf = self.recv_buffer@.insert(seq, data);
        let ghost n = self.next_recv_seq as int;
        self.recv_buffer.insert(seq, data);
        proof {
            lemma_run_len_bound(buf, n);
            let w = choose|k: u64| k >= old(self).next_recv_seq && !#[trigger] old(self).recv_buffer@.insert(seq, data).contains_key(k);
            assert(!self.recv_buffer@.contains_key(w));
            assert(self.recv_buffer@ =~= buf.remove_keys(key_range(n, n)));
        }
        let mut ready: Vec<Vec<u8>> = Vec::new();
        loop
            invariant
                n <= self.next_recv_seq <= n + run_len(buf, n),
                ready@.len() == self.next_recv_seq - n,
                forall|i: int| 0 <= i < ready@.len() ==> #[trigger] ready@[i] == buf[(n + i) as u64],
                self.recv_buffer@ == buf.remove_keys(key_range(n, self.next_recv_seq as int)),
                exists|k: u64| k >= self.next_recv_seq && !#[trigger] self.recv_buffer@.contains_key(k),
                n + run_len(buf, n) <= u64::MAX + 1,
                forall|k: u64| n <= k < n + run_len(buf, n) ==> #[trigger] buf.contains_key(k),
                (n + run_len(buf, n) <= u64::MAX) ==> !buf.contains_key((n + run_len(buf, n)) as u64),
                self.unacked_messages@ == old(self).unacked_messages@,
                self.next_send_seq == old(self).next_send_seq,
            ensures
                self.next_recv_seq == n + run_len(buf, n),
                ready@.len() == run_len(buf, n),
                forall|i: int| 0 <= i < ready@.len() ==> #[trigger] ready@[i] == buf[(n + i) as u64],
                self.recv_buffer@ == buf.remove_keys(key_range(n, self.next_recv_seq as int)),
                self.unacked_messages@ == old(self).unacked_messages@,
                self.next_send_seq == old(self).next_send_seq,
            decreases self.recv_buffer@.len(),
        {
            let next = self.next_recv_seq;
            let ghost pre = self.recv_buffer@;
            match self.recv_buffer.remove(&next) {
                Some(payload) => {
                    proof {
                        assert(!key_range(n, next as int).contains(next));
                        assert(buf.contains_key(next));
                        if next as int >= n + run_len(buf, n) {
                            assert(next as int == n + run_len(buf, n));
                        }
                        let w = choose|k: u64| k >= next && !#[trigger] pre.contains_key(k);
                        assert(w != next);
                        assert(!self.recv_buffer@.contains_key(w));
                    }
                    ready.push(payload);
                    self.next_recv_seq = next + 1;
                    proof {
                        assert(self.recv_buffer@ =~= buf.remove_keys(key_range(n, self.next_recv_seq as int)));
                    }
                },
                None => {
                    proof {
                        if (next as int) < n + run_len(buf, n) {
                            assert(buf.contains_key(next));
                            assert(!key_range(n, next as int).contains(next));
                            assert(pre.contains_key(next));
                        }
                    }
                    break;
                },
            }
        }
        proof {
            if buffer_ahead(old(self).recv_buffer@, old(self).next_recv_seq) {
                assert forall|k: u64| #[trigger] self.recv_buffer@.contains_key(k) implies k > self.next_recv_seq by {
                    assert(buf.contains_key(k));
                    assert(!key_range(n, self.next_recv_seq as int).contains(k));
                }
            }
        }
        ready
    }

    /// Messages due for retransmission now: what `get_retransmit_queue_at`
    /// does at a reading of the clock.
    pub fn get_retransmit_queue(&mut self) -> (retransmit: Vec<(u64, Vec<u8>)>)
        ensures
            exists|now: u64| #[trigger] retransmission_at(*old(self), *final(self), retransmit@, now),
    {
        let now = unix_millis();
        let r = self.get_retransmit_queue_at(now);
        assert(retransmission_at(*old(self), *self, r@, now));
        r
    }

    /// The messages due for retransmission at `now`, in increasing sequence
    /// order, with their data; each of them is marked as sent again at `now`.
    /// A message with no retries left is never resent.
    pub fn get_retransmit_queue_at(&mut self, now: u64) -> (retransmit: Vec<(u64, Vec<u8>)>)
        ensures
            final(self).unacked_messages@.dom() == old(self).unacked_messages@.dom(),
            forall|k: u64| #[trigger] old(self).unacked_messages@.contains_key(k) ==> final(self).unacked_messages@[k] ==
                if due(old(self).unacked_messages@[k], now) { resent(old(self).unacked_messages@[k], now) } else { old(self).unacked_messages@[k] },
            forall|i: int| 0 <= i < retransmit@.len() ==> old(self).unacked_messages@.contains_key(#[trigger] retransmit@[i].0)
                && due(old(self).unacked_messages@[retransmit@[i].0], now)
                && retransmit@[i].1@ == old(self).unacked_messages@[retransmit@[i].0].data@,
            forall|k: u64| #[trigger] old(self).unacked_messages@.contains_key(k) && due(old(self).unacked_messages@[k], now)
                ==> exists|i: int| 0 <= i < retransmit@.len() && retransmit@[i].0 == k,
            forall|i: int, j: int| 0 <= i < j < retransmit@.len() ==> retransmit@[i].0 < retransmit@[j].0,
            forall|i: int| 0 <= i < retransmit@.len() ==> {
                let m = final(self).unacked_messages@[#[trigger] retransmit@[i].0];
                &&& m.last_sent == now
                &&& m.retries == old(self).unacked_messages@[retransmit@[i].0].retries + 1
            },
            final(self).next_send_seq == old(self).next_send_seq,
            final(self).next_recv_seq == old(self).next_recv_seq,
            final(self).recv_buffer@ == old(self).recv_buffer@,
    {
        let ghost m0 = self.unacked_messages@;
        let ks = sorted_keys(&self.unacked_messages);
        let mut retransmit: Vec<(u64, Vec<u8>)> = Vec::new();
        let mut i: usize = 0;
        while i < ks.len()
            invariant
                i <= ks@.len(),
                ks@.to_set() == m0.dom(),
                forall|a: int, b: int| 0 <= a < b < ks@.len() ==> ks@[a] < ks@[b],
                self.unacked_messages@.dom() == m0.dom(),
                forall|a: int| 0 <= a < i ==> self.unacked_messages@[#[trigger] ks@[a]]
                    == if due(m0[ks@[a]], now) { resent(m0[ks@[a]], now) } else { m0[ks@[a]] },
                forall|a: int| i <= a < ks@.len() ==> self.unacked_messages@[#[trigger] ks@[a]] == m0[ks@[a]],
                retransmit@.len() == due_keys(m0, ks@.take(i as int), now).len(),
                forall|b: int| 0 <= b < retransmit@.len() ==> #[trigger] retransmit@[b].0 == due_keys(m0, ks@.take(i as int), now)[b]
                    && retransmit@[b].1@ == m0[retransmit@[b].0].data@,
                self.next_send_seq == old(self).next_send_seq,
                self.next_recv_seq == old(self).next_recv_seq,
                self.recv_buffer@ == old(self).recv_buffer@,
            decreases ks@.len() - i,
        {
            let k = ks[i];
            proof {
                assert(ks@.to_set().contains(k));
                assert(ks@.take(i + 1).drop_last() =~= ks@.take(i as int));
                assert(ks@.take(i + 1).last() == k);
            }
            let ghost pre = self.unacked_messages@;
            match self.unacked_messages.remove(&k) {
                Some(msg) => {
                    if msg.retries < MAX_RETRIES && now >= msg.last_sent && now - msg.last_sent >= RETRY_INTERVAL_MS {
                        let copy = bytes_to_vec(msg.data.as_slice());
                        let updated = PendingMessage {
                            sequence_number: msg.sequence_number,
                            data: msg.data,
                            last_sent: now,
                            retries: msg.retries + 1,
                        };
                        self.unacked_messages.insert(k, updated);
                        retransmit.push((k, copy));
                    } else {
                        self.unacked_messages.insert(k, msg);
                    }
                },
                None => {},
            }
            proof {
                assert(self.unacked_messages@.dom() =~= m0.dom());
                assert forall|a: int| 0 <= a < i + 1 implies self.unacked_messages@[#[trigger] ks@[a]]
                    == if due(m0[ks@[a]], now) { resent(m0[ks@[a]], now) } else { m0[ks@[a]] } by {
                    if a < i {
                        assert(ks@[a] < ks@[i as int]);
                        assert(self.unacked_messages@[ks@[a]] == pre[ks@[a]]);
                    }
                }
                assert forall|a: int| i + 1 <= a < ks@.len() implies self.unacked_messages@[#[trigger] ks@[a]] == m0[ks@[a]] by {
                    assert(ks@[i as int] < ks@[a]);
                    assert(self.unacked_messages@[ks@[a]] == pre[ks@[a]]);
                }
            }
            i = i + 1;
        }
        proof {
            assert(ks@.take(ks@.len() as int) =~= ks@);
            lemma_due_keys(m0, ks@, now);
            let d = due_keys(m0, ks@, now);
            assert forall|k: u64| #[trigger] m0.contains_key(k) implies self.unacked_messages@[k] ==
                if due(m0[k], now) { resent(m0[k], now) } else { m0[k] } by {
                assert(ks@.to_set().contains(k));
                let a = choose|a: int| 0 <= a < ks@.len() && ks@[a] == k;
                assert(self.unacked_messages@[ks@[a]] == if due(m0[ks@[a]], now) { resent(m0[ks@[a]], now) } else { m0[ks@[a]] });
            }
            assert forall|k: u64| #[trigger] m0.contains_key(k) && due(m0[k], now)
                implies exists|b: int| 0 <= b < retransmit@.len() && retransmit@[b].0 == k by {
                assert(ks@.to_set().contains(k));
                let a = choose|a: int| 0 <= a < ks@.len() && ks@[a] == k;
                assert(due(m0[ks@[a]], now));
                assert(d.contains(ks@[a]));
                let b = choose|b: int| 0 <= b < d.len() && d[b] == ks@[a];
                assert(retransmit@[b].0 == k);
            }
            assert forall|b: int| 0 <= b < retransmit@.len() implies m0.contains_key(#[trigger] retransmit@[b].0)
                && due(m0[retransmit@[b].0], now)
                && retransmit@[b].1@ == m0[retransmit@[b].0].data@ by {
                assert(ks@.contains(d[b]));
                let a = choose|a: int| 0 <= a < ks@.len() && ks@[a] == d[b];
                assert(ks@.to_set().contains(ks@[a]));
            }
            assert forall|a: int, b: int| 0 <= a < b < retransmit@.len() implies retransmit@[a].0 < retransmit@[b].0 by {
                assert(retransmit@[a].0 == d[a] && retransmit@[b].0 == d[b]);
            }
        }
        retransmit
    }

    /// Drops messages that have exhausted their retries (dead session cleanup).
    pub fn prune_dead_messages(&mut self)
        ensures
            forall|k: u64| #[trigger] final(self).unacked_messages@.contains_key(k) <==>
                old(self).unacked_messages@.contains_key(k) && old(self).unacked_messages@[k].retries < MAX_RETRIES,
            forall|k: u64| #[trigger] final(self).unacked_messages@.contains_key(k) ==>
                final(self).unacked_messages@[k] == old(self).unacked_messages@[k],
            final(self).next_send_seq == old(self).next_send_seq,
            final(self).next_recv_seq == old(self).next_recv_seq,
            final(self).recv_buffer@ == old(self).recv_buffer@,
    {
        let ghost m0 = self.unacked_messages@;
        let ks = sorted_keys(&self.unacked_messages);
        let mut i: usize = 0;
        while i < ks.len()
            invariant
                i <= ks@.len(),
                ks@.to_set() == m0.dom(),
                forall|a: int, b: int| 0 <= a < b < ks@.len() ==> ks@[a] < ks@[b],
                forall|k: u64| #[trigger] self.unacked_messages@.contains_key(k) ==> m0.contains_key(k)
                    && self.unacked_messages@[k] == m0[k],
                forall|a: int| 0 <= a < i ==> (self.unacked_messages@.contains_key(#[trigger] ks@[a]) <==> m0[ks@[a]].retries < MAX_RETRIES),
                forall|a: int| i <= a < ks@.len() ==> self.unacked_messages@.contains_key(#[trigger] ks@[a]),
                self.next_send_seq == old(self).next_send_seq,
                self.next_recv_seq == old(self).next_recv_seq,
                self.recv_buffer@ == old(self).recv_buffer@,
            decreases ks@.len() - i,
        {
            let k = ks[i];
            let ghost pre = self.unacked_messages@;
            let dead = match self.unacked_messages.get(&k) {
                Some(msg) => msg.retries >= MAX_RETRIES,
                None => false,
            };
            if dead {
                self.unacked_messages.remove(&k);
            }
            proof {
                assert(pre.contains_key(k));
                assert forall|a: int| 0 <= a < i + 1 implies (self.unacked_messages@.contains_key(#[trigger] ks@[a]) <==> m0[ks@[a]].retries < MAX_RETRIES) by {
                    if a < i {
                        assert(ks@[a] < ks@[i as int]);
                    }
                }
                assert forall|a: int| i + 1 <= a < ks@.len() implies self.unacked_messages@.contains_key(#[trigger] ks@[a]) by {
                    assert(ks@[i as int] < ks@[a]);
                }
            }
            i = i + 1;
        }
        proof {
            assert forall|k: u64| #[trigger] self.unacked_messages@.contains_key(k) <==>
                m0.contains_key(k) && m0[k].retries < MAX_RETRIES by {
                if m0.contains_key(k) {
                    assert(ks@.to_set().contains(k));
                    let a = choose|a: int| 0 <= a < ks@.len() && ks@[a] == k;
                    assert(self.unacked_messages@.contains_key(ks@[a]) <==> m0[ks@[a]].retries < MAX_RETRIES);
                }
            }
        }
    }
}

/// A message handed out by a retransmission pass at `now` is marked as sent
/// at `now`, one more retry used, and is not due again before a whole
/// retry interval has passed since `now`.
pub proof fn lemma_retransmitted_rests(pre: LosslessQueue, post: LosslessQueue, out: Seq<(u64, Vec<u8>)>, now: u64, i: int, t: u64)
    requires
        retransmission_at(pre, post, out, now),
        0 <= i < out.len(),
        now <= t,
        t - now < RETRY_INTERVAL_MS,
    ensures
        post.unacked_messages@[out[i].0].last_sent == now,
        post.unacked_messages@[out[i].0].retries == pre.unacked_messages@[out[i].0].retries + 1,
        !due(post.unacked_messages@[out[i].0], t),
{
    assert(pre.unacked_messages@.contains_key(out[i].0));
}

} // verus!
