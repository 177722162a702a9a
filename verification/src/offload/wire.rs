//! The byte format of offline blobs and of the offline-storage requests.
use vstd::prelude::*;
use crate::bytes::{array12_at, array32_at, u64_from_le_slice, u64_le, u64_to_le_bytes};
use crate::offload::blob::{IdentityPublicKey, OfflineBlob};
use crate::wire::{bytes_wire, lemma_bytes_wire_unique, lemma_prefix_at, lemma_prefix_parts, push_bytes, read_bytes};

verus! {

/// The bytes of a blob.
pub open spec fn blob_wire(b: OfflineBlob) -> Seq<u8> {
    b.nonce@ + bytes_wire(b.ciphertext@) + bytes_wire(b.sender_sig@) + b.sender_pk.0@ + b.sender_dht_pk.0@
        + u64_le(b.expires_at) + b.pow_token@ + u64_le(b.pow_nonce)
}

/// The bytes after a blob's two vectors.
pub open spec fn blob_tail(b: OfflineBlob) -> Seq<u8> {
    b.sender_pk.0@ + b.sender_dht_pk.0@ + u64_le(b.expires_at) + b.pow_token@ + u64_le(b.pow_nonce)
}

/// The bytes of a store request: the target's announce key, then the blob.
pub open spec fn store_request_wire(target: Seq<u8>, b: OfflineBlob) -> Seq<u8> {
    target + blob_wire(b)
}

/// The bytes of a run of blobs, one after another.
pub open spec fn blobs_wire(s: Seq<OfflineBlob>) -> Seq<u8>
    decreases s.len(),
{
    if s.len() == 0 {
        Seq::empty()
    } else {
        blobs_wire(s.drop_last()) + blob_wire(s.last())
    }
}

/// The bytes of a vector of blobs: its length, then the blobs.
pub open spec fn blob_list_wire(s: Seq<OfflineBlob>) -> Seq<u8> {
    u64_le(s.len() as u64) + blobs_wire(s)
}

/// The blob's vectors have lengths below 2^64.
pub open spec fn blob_writable(b: OfflineBlob) -> bool {
    b.ciphertext@.len() <= u64::MAX && b.sender_sig@.len() <= u64::MAX
}

fn push_blob(out: &mut Vec<u8>, b: &OfflineBlob)
    ensures
        final(out)@ == old(out)@ + blob_wire(*b),
{
    out.extend_from_slice(&b.nonce);
    push_bytes(out, b.ciphertext.as_slice());
    push_bytes(out, b.sender_sig.as_slice());
    out.extend_from_slice(&b.sender_pk.0);
    out.extend_from_slice(&b.sender_dht_pk.0);
    let e = u64_to_le_bytes(b.expires_at);
    out.extend_from_slice(&e);
    out.extend_from_slice(&b.pow_token);
    let n = u64_to_le_bytes(b.pow_nonce);
    out.extend_from_slice(&n);
    assert(final(out)@ =~= old(out)@ + blob_wire(*b));
}

/// Serialises a store request.
pub fn encode_store_request(target: &[u8; 32], b: &OfflineBlob) -> (out: Vec<u8>)
    ensures
        out@ == store_request_wire(target@, *b),
{
    let mut out: Vec<u8> = Vec::new();
    out.extend_from_slice(target);
    push_blob(&mut out, b);
    assert(out@ =~= store_request_wire(target@, *b));
    out
}

/// Serialises a vector of blobs.
pub fn encode_blobs(blobs: &Vec<OfflineBlob>) -> (out: Vec<u8>)
    ensures
        out@ == blob_list_wire(blobs@),
{
    let mut out: Vec<u8> = Vec::new();
    let n = u64_to_le_bytes(blobs.len() as u64);
    out.extend_from_slice(&n);
    let mut i: usize = 0;
    while i < blobs.len()
        invariant
            i <= blobs@.len(),
            out@ == u64_le(blobs@.len() as u64) + blobs_wire(blobs@.take(i as int)),
        decreases blobs@.len() - i,
    {
        push_blob(&mut out, &blobs[i]);
        proof {
            assert(blobs@.take(i + 1).drop_last() =~= blobs@.take(i as int));
            assert(out@ =~= u64_le(blobs@.len() as u64) + blobs_wire(blobs@.take(i + 1)));
        }
        i = i + 1;
    }
    assert(blobs@.take(blobs@.len() as int) =~= blobs@);
    out
}

proof fn lemma_blob_parts(b: OfflineBlob, s: Seq<u8>)
    requires
        blob_wire(b).is_prefix_of(s),
    ensures
        b.nonce@.is_prefix_of(s),
        bytes_wire(b.ciphertext@).is_prefix_of(s.skip(12)),
        bytes_wire(b.sender_sig@).is_prefix_of(s.skip(12 + bytes_wire(b.ciphertext@).len() as int)),
        blob_tail(b).is_prefix_of(s.skip(12 + bytes_wire(b.ciphertext@).len() as int + bytes_wire(b.sender_sig@).len() as int)),
{
    let c = bytes_wire(b.ciphertext@);
    let g = bytes_wire(b.sender_sig@);
    assert(blob_wire(b) =~= b.nonce@ + (c + (g + blob_tail(b))));
    lemma_prefix_parts(b.nonce@, c + (g + blob_tail(b)), s);
    lemma_prefix_parts(c, g + blob_tail(b), s.skip(12));
    assert(s.skip(12).skip(c.len() as int) =~= s.skip(12 + c.len() as int));
    lemma_prefix_parts(g, blob_tail(b), s.skip(12 + c.len() as int));
    assert(s.skip(12 + c.len() as int).skip(g.len() as int) =~= s.skip(12 + c.len() as int + g.len() as int));
}

/// Reads a blob at `pos`. `None` exactly when no blob's bytes begin there.
fn read_blob(s: &[u8], pos: usize) -> (r: Option<(OfflineBlob, usize)>)
    requires
        pos <= s@.len(),
    ensures
        match r {
            Some((b, end)) => pos <= end <= s@.len() && s@.subrange(pos as int, end as int) == blob_wire(b),
            None => forall|b: OfflineBlob| blob_writable(b) ==> !(#[trigger] blob_wire(b)).is_prefix_of(s@.skip(pos as int)),
        },
{
    let ghost rest = s@.skip(pos as int);
    if s.len() - pos < 12 {
        proof {
            assert forall|b: OfflineBlob| blob_writable(b) implies !(#[trigger] blob_wire(b)).is_prefix_of(rest) by {
                if blob_wire(b).is_prefix_of(rest) {
                    lemma_blob_parts(b, rest);
                }
            }
        }
        return None;
    }
    let nonce = array12_at(s, pos);
    proof {
        assert(rest.skip(12) =~= s@.skip(pos + 12));
    }
    let (ciphertext, at1) = match read_bytes(s, pos + 12) {
        Some(x) => x,
        None => {
            proof {
                assert forall|b: OfflineBlob| blob_writable(b) implies !(#[trigger] blob_wire(b)).is_prefix_of(rest) by {
                    if blob_wire(b).is_prefix_of(rest) {
                        lemma_blob_parts(b, rest);
                    }
                }
            }
            return None;
        },
    };
    proof {
        assert(rest.skip(12 + bytes_wire(ciphertext@).len() as int) =~= s@.skip(at1 as int));
        lemma_prefix_at(bytes_wire(ciphertext@), s@, pos + 12, at1 as int);
    }
    let (sender_sig, at2) = match read_bytes(s, at1) {
        Some(x) => x,
        None => {
            proof {
                assert forall|b: OfflineBlob| blob_writable(b) implies !(#[trigger] blob_wire(b)).is_prefix_of(rest) by {
                    if blob_wire(b).is_prefix_of(rest) {
                        lemma_blob_parts(b, rest);
                        lemma_bytes_wire_unique(b.ciphertext@, ciphertext@, s@.skip(pos + 12));
                    }
                }
            }
            return None;
        },
    };
    if s.len() - at2 < 112 {
        proof {
            assert forall|b: OfflineBlob| blob_writable(b) implies !(#[trigger] blob_wire(b)).is_prefix_of(rest) by {
                if blob_wire(b).is_prefix_of(rest) {
                    lemma_blob_parts(b, rest);
                    lemma_bytes_wire_unique(b.ciphertext@, ciphertext@, s@.skip(pos + 12));
                    lemma_prefix_at(bytes_wire(sender_sig@), s@, at1 as int, at2 as int);
                    lemma_bytes_wire_unique(b.sender_sig@, sender_sig@, s@.skip(at1 as int));
                    assert(rest.skip(12 + bytes_wire(ciphertext@).len() as int + bytes_wire(sender_sig@).len() as int) =~= s@.skip(at2 as int));
                }
            }
        }
        return None;
    }
    let sender_pk = array32_at(s, at2);
    let sender_dht_pk = array32_at(s, at2 + 32);
    let expires_at = u64_from_le_slice(s, at2 + 64);
    let pow_token = array32_at(s, at2 + 72);
    let pow_nonce = u64_from_le_slice(s, at2 + 104);
    let b = OfflineBlob {
        nonce,
        ciphertext,
        sender_sig,
        sender_pk: IdentityPublicKey(sender_pk),
        sender_dht_pk: IdentityPublicKey(sender_dht_pk),
        expires_at,
        pow_token,
        pow_nonce,
    };
    proof {
        assert(s@.subrange(pos as int, at2 + 112) =~= blob_wire(b));
    }
    Some((b, at2 + 112))
}

/// Reads a store request (target announce key, then blob) at the start of
/// `s`. `None` exactly when `s` does not begin with one; bytes after it are
/// ignored.
pub fn decode_store_request(s: &[u8]) -> (r: Option<([u8; 32], OfflineBlob)>)
    ensures
        match r {
            Some((t, b)) => store_request_wire(t@, b).is_prefix_of(s@),
            None => forall|t: Seq<u8>, b: OfflineBlob| t.len() == 32 && blob_writable(b)
                ==> !(#[trigger] store_request_wire(t, b)).is_prefix_of(s@),
        },
{
    if s.len() < 32 {
        return None;
    }
    let target = array32_at(s, 0);
    match read_blob(s, 32) {
        None => {
            proof {
                assert forall|t: Seq<u8>, b: OfflineBlob| t.len() == 32 && blob_writable(b)
                    implies !(#[trigger] store_request_wire(t, b)).is_prefix_of(s@) by {
                    if store_request_wire(t, b).is_prefix_of(s@) {
                        lemma_prefix_parts(t, blob_wire(b), s@);
                    }
                }
            }
            None
        },
        Some((b, end)) => {
            proof {
                assert(store_request_wire(target@, b) =~= s@.subrange(0, end as int));
            }
            Some((target, b))
        },
    }
}

} // verus!
