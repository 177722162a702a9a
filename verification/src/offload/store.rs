use vstd::prelude::*;
use crate::keymap::KeyMap;
use crate::offload::blob::{blob_pow_ok, blob_sig_ok, OfflineBlob};
use crate::offload::error::OffloadError;

verus! {

/// Maximum blob size allowed in the network (64 KB).
pub const MAX_BLOB_SIZE: usize = 65536;

/// Maximum blobs stored per sender public key to prevent DoS.
pub const MAX_BLOBS_PER_SENDER: usize = 50;

/// The blobs stored for `target`, oldest first.
pub open spec fn queue_of(e: Seq<([u8; 32], OfflineBlob)>, target: Seq<u8>) -> Seq<OfflineBlob>
    decreases e.len(),
{
    if e.len() == 0 {
        Seq::empty()
    } else {
        let r = queue_of(e.drop_last(), target);
        if e.last().0@ == target { r.push(e.last().1) } else { r }
    }
}

/// How many stored blobs come from `sender`.
pub open spec fn sender_count(e: Seq<([u8; 32], OfflineBlob)>, sender: Seq<u8>) -> nat
    decreases e.len(),
{
    if e.len() == 0 {
        0
    } else {
        sender_count(e.drop_last(), sender) + if e.last().1.sender_pk.0@ == sender { 1nat } else { 0nat }
    }
}

/// The entries whose blob has not expired at `now`.
pub open spec fn unexpired(e: Seq<([u8; 32], OfflineBlob)>, now: u64) -> Seq<([u8; 32], OfflineBlob)>
    decreases e.len(),
{
    if e.len() == 0 {
        e
    } else {
        let r = unexpired(e.drop_last(), now);
        if e.last().1.expires_at >= now { r.push(e.last()) } else { r }
    }
}

/// The entries not addressed to `target`.
pub open spec fn others(e: Seq<([u8; 32], OfflineBlob)>, target: Seq<u8>) -> Seq<([u8; 32], OfflineBlob)>
    decreases e.len(),
{
    if e.len() == 0 {
        e
    } else {
        let r = others(e.drop_last(), target);
        if e.last().0@ != target { r.push(e.last()) } else { r }
    }
}

/// The rate table counts exactly the stored blobs of each sender, and
/// holds no sender with none.
pub open spec fn rates_match(rates: Map<Seq<u8>, usize>, e: Seq<([u8; 32], OfflineBlob)>) -> bool {
    forall|s: Seq<u8>| #![trigger rates.contains_key(s)] #![trigger sender_count(e, s)]
        (rates.contains_key(s) <==> sender_count(e, s) > 0) && (rates.contains_key(s) ==> rates[s] == sender_count(e, s))
}

/// No sender has more than `MAX_BLOBS_PER_SENDER` blobs stored.
pub open spec fn within_quota(e: Seq<([u8; 32], OfflineBlob)>) -> bool {
    forall|s: Seq<u8>| #[trigger] sender_count(e, s) <= MAX_BLOBS_PER_SENDER
}

/// Dropping the entries of one target never raises a sender's count.
proof fn lemma_sender_count_others(e: Seq<([u8; 32], OfflineBlob)>, t: Seq<u8>, s: Seq<u8>)
    ensures
        sender_count(others(e, t), s) <= sender_count(e, s),
    decreases e.len(),
{
    if e.len() > 0 {
        lemma_sender_count_others(e.drop_last(), t, s);
        if e.last().0@ != t {
            lemma_sender_count_push(others(e.drop_last(), t), e.last(), s);
        }
    }
}

/// Dropping expired entries never raises a sender's count.
proof fn lemma_sender_count_unexpired(e: Seq<([u8; 32], OfflineBlob)>, now: u64, s: Seq<u8>)
    ensures
        sender_count(unexpired(e, now), s) <= sender_count(e, s),
    decreases e.len(),
{
    if e.len() > 0 {
        lemma_sender_count_unexpired(e.drop_last(), now, s);
        if e.last().1.expires_at >= now {
            lemma_sender_count_push(unexpired(e.drop_last(), now), e.last(), s);
        }
    }
}

proof fn lemma_sender_count_push(e: Seq<([u8; 32], OfflineBlob)>, x: ([u8; 32], OfflineBlob), s: Seq<u8>)
    ensures
        sender_count(e.push(x), s) == sender_count(e, s) + if x.1.sender_pk.0@ == s { 1nat } else { 0nat },
{
    assert(e.push(x).drop_last() =~= e);
}

proof fn lemma_queue_of_push(e: Seq<([u8; 32], OfflineBlob)>, x: ([u8; 32], OfflineBlob), t: Seq<u8>)
    ensures
        queue_of(e.push(x), t) == if x.0@ == t { queue_of(e, t).push(x.1) } else { queue_of(e, t) },
{
    assert(e.push(x).drop_last() =~= e);
}

/// Counting over a concatenation adds up.
proof fn lemma_sender_count_concat(a: Seq<([u8; 32], OfflineBlob)>, b: Seq<([u8; 32], OfflineBlob)>, s: Seq<u8>)
    ensures
        sender_count(a + b, s) == sender_count(a, s) + sender_count(b, s),
    decreases b.len(),
{
    if b.len() == 0 {
        assert(a + b =~= a);
    } else {
        lemma_sender_count_concat(a, b.drop_last(), s);
        assert((a + b).drop_last() =~= a + b.drop_last());
    }
}

/// Stores offline blobs for their recipients and enforces per-sender quotas.
pub struct BlobStore {
    /// Every stored blob with the recipient's announce key (the DHT target)
    /// it is kept for, oldest first.
    storage: Vec<([u8; 32], OfflineBlob)>,
    /// How many blobs each sender has stored, for rate limiting.
    sender_rates: KeyMap<usize, 32>,
}

impl BlobStore {
    #[verifier::type_invariant]
    spec fn inv(self) -> bool {
        &&& rates_match(self.sender_rates@, self.storage@)
        &&& within_quota(self.storage@)
    }

    /// Every stored blob with its target, oldest first.
    pub closed spec fn entries(&self) -> Seq<([u8; 32], OfflineBlob)> {
        self.storage@
    }

    /// An empty store.
    pub fn new() -> (s: Self)
        ensures
            s.entries() == Seq::<([u8; 32], OfflineBlob)>::empty(),
            within_quota(s.entries()),
    {
        let s = BlobStore { storage: Vec::new(), sender_rates: KeyMap::new() };
        assert forall|k: Seq<u8>| #![trigger s.sender_rates@.contains_key(k)] #![trigger sender_count(s.storage@, k)]
            (s.sender_rates@.contains_key(k) <==> sender_count(s.storage@, k) > 0) && sender_count(s.storage@, k) == 0 by {}
        s
    }

    /// How many blobs the sender has stored, or `None` when none.
    pub fn sender_rate(&self, sender_pk: &[u8; 32]) -> (r: Option<usize>)
        ensures
            match r {
                Some(c) => c == sender_count(self.entries(), sender_pk@) && c > 0,
                None => sender_count(self.entries(), sender_pk@) == 0,
            },
            r matches Some(c) ==> c <= MAX_BLOBS_PER_SENDER,
    {
        proof { use_type_invariant(self); }
        match self.sender_rates.get(sender_pk) {
            Some(c) => Some(*c),
            None => None,
        }
    }

    /// Whether any blob is stored for the target.
    pub fn has_queue(&self, target: &[u8; 32]) -> (r: bool)
        ensures
            r == (queue_of(self.entries(), target@).len() > 0),
    {
        let mut i: usize = 0;
        while i < self.storage.len()
            invariant
                i <= self.storage@.len(),
                queue_of(self.storage@.take(i as int), target@).len() == 0,
            decreases self.storage@.len() - i,
        {
            proof {
                assert(self.storage@.take(i + 1) =~= self.storage@.take(i as int).push(self.storage@[i as int]));
                lemma_queue_of_push(self.storage@.take(i as int), self.storage@[i as int], target@);
            }
            if crate::dht::node::bytes32_eq(&self.storage[i].0, target) {
                proof {
                    assert(self.storage@ =~= self.storage@.take(i + 1) + self.storage@.skip(i + 1));
                    lemma_queue_len_mono(self.storage@.take(i + 1), self.storage@.skip(i + 1), target@);
                }
                return true;
            }
            i = i + 1;
        }
        assert(self.storage@.take(i as int) =~= self.storage@);
        false
    }

    /// Appends a blob for `target` and counts it against its sender, with
    /// no other checks: the caller has already accepted the blob, and its
    /// sender is still under quota.
    pub fn enqueue_blob(&mut self, target_announce_key: [u8; 32], blob: OfflineBlob)
        requires
            sender_count(old(self).entries(), blob.sender_pk.0@) < MAX_BLOBS_PER_SENDER,
        ensures
            final(self).entries() == old(self).entries().push((target_announce_key, blob)),
            within_quota(final(self).entries()),
    {
        proof { use_type_invariant(&*self); }
        let ghost e0 = self.storage@;
        let sender = blob.sender_pk.0;
        let count: usize = match self.sender_rates.get(&sender) {
            Some(c) => *c,
            None => 0,
        };
        let mut taken = BlobStore::new();
        std::mem::swap(&mut taken, self);
        proof { use_type_invariant(&taken); }
        let BlobStore { storage, sender_rates } = taken;
        let mut rates = sender_rates;
        let mut storage = storage;
        rates.insert(sender, count + 1);
        storage.push((target_announce_key, blob));
        proof {
            let e1 = storage@;
            assert(e1 == e0.push((target_announce_key, blob)));
            assert forall|s: Seq<u8>| #![trigger rates@.contains_key(s)] #![trigger sender_count(e1, s)]
                (rates@.contains_key(s) <==> sender_count(e1, s) > 0) && (rates@.contains_key(s) ==> rates@[s] == sender_count(e1, s)) by {
                lemma_sender_count_push(e0, (target_announce_key, blob), s);
            }
            assert forall|s: Seq<u8>| #[trigger] sender_count(e1, s) <= MAX_BLOBS_PER_SENDER by {
                lemma_sender_count_push(e0, (target_announce_key, blob), s);
            }
        }
        *self = BlobStore { storage, sender_rates: rates };
    }

    /// Receives an offline blob from the network and stores it if valid:
    /// its ciphertext is at most 64KB, it passes the integrity check, and
    /// its sender has fewer than 50 blobs stored.
    pub fn store_blob(&mut self, target_announce_key: [u8; 32], blob: OfflineBlob, current_time: u64) -> (r: Result<(), OffloadError>)
        ensures
            blob.ciphertext@.len() > MAX_BLOB_SIZE ==> r matches Err(OffloadError::Serialization),
            blob.ciphertext@.len() <= MAX_BLOB_SIZE && current_time > blob.expires_at ==> r matches Err(OffloadError::Expired),
            blob.ciphertext@.len() <= MAX_BLOB_SIZE && current_time <= blob.expires_at && !blob_pow_ok(blob)
                ==> r matches Err(OffloadError::InvalidPow),
            blob.ciphertext@.len() <= MAX_BLOB_SIZE && current_time <= blob.expires_at && blob_pow_ok(blob) && !blob_sig_ok(blob)
                ==> r matches Err(OffloadError::InvalidSignature),
            blob.ciphertext@.len() <= MAX_BLOB_SIZE && current_time <= blob.expires_at && blob_pow_ok(blob) && blob_sig_ok(blob)
                && sender_count(old(self).entries(), blob.sender_pk.0@) >= MAX_BLOBS_PER_SENDER
                ==> r matches Err(OffloadError::RateLimited),
            r is Ok <==> blob.ciphertext@.len() <= MAX_BLOB_SIZE && current_time <= blob.expires_at && blob_pow_ok(blob)
                && blob_sig_ok(blob) && sender_count(old(self).entries(), blob.sender_pk.0@) < MAX_BLOBS_PER_SENDER,
            r is Ok ==> final(self).entries() == old(self).entries().push((target_announce_key, blob)),
            r is Err ==> final(self).entries() == old(self).entries(),
            within_quota(final(self).entries()),
    {
        proof { use_type_invariant(&*self); }
        if blob.ciphertext.len() > MAX_BLOB_SIZE {
            return Err(OffloadError::Serialization);
        }
        blob.verify_integrity(current_time)?;
        let count: usize = match self.sender_rates.get(&blob.sender_pk.0) {
            Some(c) => *c,
            None => 0,
        };
        if count >= MAX_BLOBS_PER_SENDER {
            return Err(OffloadError::RateLimited);
        }
        self.enqueue_blob(target_announce_key, blob);
        Ok(())
    }

    /// Takes every blob stored for the target, oldest first, and releases
    /// their senders' quota.
    pub fn fetch_blobs(&mut self, target_announce_key: &[u8; 32]) -> (blobs: Vec<OfflineBlob>)
        ensures
            blobs@ == queue_of(old(self).entries(), target_announce_key@),
            final(self).entries() == others(old(self).entries(), target_announce_key@),
            within_quota(final(self).entries()),
    {
        proof { use_type_invariant(&*self); }
        let ghost e0 = self.storage@;
        let mut taken = BlobStore::new();
        std::mem::swap(&mut taken, self);
        proof { use_type_invariant(&taken); }
        let BlobStore { storage, sender_rates } = taken;
        let mut rates = sender_rates;
        let mut storage = storage;
        let mut kept: Vec<([u8; 32], OfflineBlob)> = Vec::new();
        let mut blobs: Vec<OfflineBlob> = Vec::new();
        let n = storage.len();
        let mut i: usize = 0;
        assert(Seq::<([u8; 32], OfflineBlob)>::empty() + e0.skip(0) =~= e0);
        while i < n
            invariant
                n == e0.len(),
                storage@ == e0.skip(i as int),
                i <= e0.len(),
                kept@ == others(e0.take(i as int), target_announce_key@),
                blobs@ == queue_of(e0.take(i as int), target_announce_key@),
                rates_match(rates@, kept@ + e0.skip(i as int)),
            decreases e0.len() - i,
        {
            let entry = storage.remove(0);
            proof {
                assert(entry == e0[i as int]);
                assert(storage@ =~= e0.skip(i + 1));
                assert(e0.take(i + 1) =~= e0.take(i as int).push(e0[i as int]));
                assert(e0.take(i + 1).drop_last() =~= e0.take(i as int));
                lemma_queue_of_push(e0.take(i as int), e0[i as int], target_announce_key@);
                assert(e0.skip(i as int) =~= seq![e0[i as int]] + e0.skip(i + 1));
            }
            if crate::dht::node::bytes32_eq(&entry.0, target_announce_key) {
                let sender = entry.1.sender_pk.0;
                proof {
                    let s = sender@;
                    lemma_sender_count_concat(kept@, e0.skip(i as int), s);
                    lemma_sender_count_concat(seq![e0[i as int]], e0.skip(i + 1), s);
                    lemma_sender_count_push(Seq::empty(), e0[i as int], s);
                    assert(seq![e0[i as int]] =~= Seq::<([u8; 32], OfflineBlob)>::empty().push(e0[i as int]));
                }
                let ghost old_rates = rates@;
                match rates.get(&sender) {
                    Some(c) => {
                        let c = *c;
                        if c > 1 {
                            rates.insert(sender, c - 1);
                        } else {
                            rates.remove(&sender);
                        }
                    },
                    None => {},
                }
                proof {
                    let rest = kept@ + e0.skip(i + 1);
                    assert forall|s: Seq<u8>| #![trigger rates@.contains_key(s)] #![trigger sender_count(rest, s)]
                        (rates@.contains_key(s) <==> sender_count(rest, s) > 0) && (rates@.contains_key(s) ==> rates@[s] == sender_count(rest, s)) by {
                        lemma_sender_count_concat(kept@, e0.skip(i as int), s);
                        lemma_sender_count_concat(kept@, e0.skip(i + 1), s);
                        lemma_sender_count_concat(seq![e0[i as int]], e0.skip(i + 1), s);
                        lemma_sender_count_push(Seq::empty(), e0[i as int], s);
                        assert(seq![e0[i as int]] =~= Seq::<([u8; 32], OfflineBlob)>::empty().push(e0[i as int]));
                        assert(old_rates.contains_key(s) <==> sender_count(kept@ + e0.skip(i as int), s) > 0);
                    }
                    assert(rates_match(rates@, kept@ + e0.skip(i + 1)));
                }
                blobs.push(entry.1);
            } else {
                let ghost k0 = kept@;
                kept.push(entry);
                proof {
                    assert(kept@ + e0.skip(i + 1) =~= k0 + e0.skip(i as int));
                }
            }
            i = i + 1;
        }
        proof {
            assert(e0.take(e0.len() as int) =~= e0);
            assert(kept@ + e0.skip(e0.len() as int) =~= kept@);
            assert forall|s: Seq<u8>| #[trigger] sender_count(kept@, s) <= MAX_BLOBS_PER_SENDER by {
                lemma_sender_count_others(e0, target_announce_key@, s);
            }
        }
        *self = BlobStore { storage: kept, sender_rates: rates };
        blobs
    }

    /// Drops every blob that expired before `current_time` and releases
    /// their senders' quota; the others keep their order.
    pub fn cleanup_expired(&mut self, current_time: u64)
        ensures
            final(self).entries() == unexpired(old(self).entries(), current_time),
            unexpired(final(self).entries(), current_time) == final(self).entries(),
            within_quota(final(self).entries()),
    {
        proof { lemma_cleanup_idempotent(old(self).entries(), current_time); }
        proof { use_type_invariant(&*self); }
        let ghost e0 = self.storage@;
        let mut taken = BlobStore::new();
        std::mem::swap(&mut taken, self);
        proof { use_type_invariant(&taken); }
        let BlobStore { storage, sender_rates } = taken;
        let mut rates = sender_rates;
        let mut storage = storage;
        let mut kept: Vec<([u8; 32], OfflineBlob)> = Vec::new();
        let n = storage.len();
        let mut i: usize = 0;
        assert(Seq::<([u8; 32], OfflineBlob)>::empty() + e0.skip(0) =~= e0);
        while i < n
            invariant
                n == e0.len(),
                storage@ == e0.skip(i as int),
                i <= e0.len(),
                kept@ == unexpired(e0.take(i as int), current_time),
                rates_match(rates@, kept@ + e0.skip(i as int)),
            decreases e0.len() - i,
        {
            let entry = storage.remove(0);
            proof {
                assert(entry == e0[i as int]);
                assert(storage@ =~= e0.skip(i + 1));
                assert(e0.take(i + 1) =~= e0.take(i as int).push(e0[i as int]));
                assert(e0.take(i + 1).drop_last() =~= e0.take(i as int));
                assert(e0.skip(i as int) =~= seq![e0[i as int]] + e0.skip(i + 1));
            }
            if entry.1.expires_at >= current_time {
                let ghost k0 = kept@;
                kept.push(entry);
                proof {
                    assert(kept@ + e0.skip(i + 1) =~= k0 + e0.skip(i as int));
                }
            } else {
                let sender = entry.1.sender_pk.0;
                proof {
                    let s = sender@;
                    lemma_sender_count_concat(kept@, e0.skip(i as int), s);
                    lemma_sender_count_concat(seq![e0[i as int]], e0.skip(i + 1), s);
                    lemma_sender_count_push(Seq::empty(), e0[i as int], s);
                    assert(seq![e0[i as int]] =~= Seq::<([u8; 32], OfflineBlob)>::empty().push(e0[i as int]));
                }
                let ghost old_rates = rates@;
                match rates.get(&sender) {
                    Some(c) => {
                        let c = *c;
                        if c > 1 {
                            rates.insert(sender, c - 1);
                        } else {
                            rates.remove(&sender);
                        }
                    },
                    None => {},
                }
                proof {
                    let rest = kept@ + e0.skip(i + 1);
                    assert forall|s: Seq<u8>| #![trigger rates@.contains_key(s)] #![trigger sender_count(rest, s)]
                        (rates@.contains_key(s) <==> sender_count(rest, s) > 0) && (rates@.contains_key(s) ==> rates@[s] == sender_count(rest, s)) by {
                        lemma_sender_count_concat(kept@, e0.skip(i as int), s);
                        lemma_sender_count_concat(kept@, e0.skip(i + 1), s);
                        lemma_sender_count_concat(seq![e0[i as int]], e0.skip(i + 1), s);
                        lemma_sender_count_push(Seq::empty(), e0[i as int], s);
                        assert(seq![e0[i as int]] =~= Seq::<([u8; 32], OfflineBlob)>::empty().push(e0[i as int]));
                        assert(old_rates.contains_key(s) <==> sender_count(kept@ + e0.skip(i as int), s) > 0);
                    }
                    assert(rates_match(rates@, kept@ + e0.skip(i + 1)));
                }
            }
            i = i + 1;
        }
        proof {
            assert(e0.take(e0.len() as int) =~= e0);
            assert(kept@ + e0.skip(e0.len() as int) =~= kept@);
            assert forall|s: Seq<u8>| #[trigger] sender_count(kept@, s) <= MAX_BLOBS_PER_SENDER by {
                lemma_sender_count_unexpired(e0, current_time, s);
            }
        }
        *self = BlobStore { storage: kept, sender_rates: rates };
    }
}

/// Removing expired blobs twice at the same time removes nothing more:
/// what survives a cleanup has not expired.
pub proof fn lemma_cleanup_idempotent(e: Seq<([u8; 32], OfflineBlob)>, now: u64)
    ensures
        unexpired(unexpired(e, now), now) == unexpired(e, now),
    decreases e.len(),
{
    if e.len() > 0 {
        lemma_cleanup_idempotent(e.drop_last(), now);
        let r = unexpired(e.drop_last(), now);
        if e.last().1.expires_at >= now {
            assert(r.push(e.last()).drop_last() =~= r);
        }
    }
}

/// What is stored is what is fetched: after a blob is stored for a target,
/// that target's queue is the old queue with the blob at its end, and every
/// other target's queue is unchanged.
pub proof fn lemma_stored_blob_is_fetched(e: Seq<([u8; 32], OfflineBlob)>, target: [u8; 32], b: OfflineBlob, other: Seq<u8>)
    requires
        other != target@,
    ensures
        queue_of(e.push((target, b)), target@) == queue_of(e, target@).push(b),
        queue_of(e.push((target, b)), other) == queue_of(e, other),
{
    lemma_queue_of_push(e, (target, b), target@);
    lemma_queue_of_push(e, (target, b), other);
}

/// Storing through the quota check never takes a sender past 50 blobs.
pub proof fn lemma_quota_respected(e: Seq<([u8; 32], OfflineBlob)>, target: [u8; 32], b: OfflineBlob)
    requires
        sender_count(e, b.sender_pk.0@) < MAX_BLOBS_PER_SENDER,
    ensures
        sender_count(e.push((target, b)), b.sender_pk.0@) <= MAX_BLOBS_PER_SENDER,
{
    lemma_sender_count_push(e, (target, b), b.sender_pk.0@);
}

/// A queue only grows when more entries follow.
proof fn lemma_queue_len_mono(a: Seq<([u8; 32], OfflineBlob)>, b: Seq<([u8; 32], OfflineBlob)>, t: Seq<u8>)
    ensures
        queue_of(a + b, t).len() >= queue_of(a, t).len(),
    decreases b.len(),
{
    if b.len() == 0 {
        assert(a + b =~= a);
    } else {
        lemma_queue_len_mono(a, b.drop_last(), t);
        assert((a + b).drop_last() =~= a + b.drop_last());
    }
}

} // verus!
