use vstd::prelude::*;
use crate::bytes::{u64_le, u64_to_le_bytes};
use crate::clock::unix_secs;
use crate::crypto::hash::{blake2s256, blake2s256_digest};
use crate::crypto::keypair::StaticKeypair;
use crate::dht::node::DhtPublicKey;

verus! {

/// Seconds in a day: announce keys rotate daily.
pub const SECS_PER_DAY: u64 = 86400;

/// Label of the announce-key hash.
pub open spec fn announce_label() -> Seq<u8> {
    "zero-announce-v1"@.map_values(|c: char| c as u8)
}

/// The announce key of an identity on a given day since the Unix epoch:
/// BLAKE2s-256 over the label, the day's little-endian bytes and the
/// identity's private key.
pub open spec fn announce_key_spec(private: Seq<u8>, day: u64) -> Seq<u8> {
    blake2s256(announce_label() + u64_le(day) + private)
}

fn announce_label_bytes() -> (v: Vec<u8>)
    ensures
        v@ == announce_label(),
{
    let v: Vec<u8> = vec![
        0x7a, 0x65, 0x72, 0x6f, 0x2d, 0x61, 0x6e, 0x6e, 0x6f, 0x75, 0x6e, 0x63, 0x65, 0x2d, 0x76, 0x31,
    ];
    proof {
        reveal_strlit("zero-announce-v1");
        assert(v@ =~= announce_label());
    }
    v
}

/// The announce key of the identity on the given day.
pub fn announce_key_for_day(identity: &StaticKeypair, day: u64) -> (k: DhtPublicKey)
    ensures
        k.0@ == announce_key_spec(identity.private@, day),
{
    let mut input = announce_label_bytes();
    let d = u64_to_le_bytes(day);
    input.extend_from_slice(&d);
    input.extend_from_slice(&identity.private);
    assert(input@ =~= announce_label() + u64_le(day) + identity.private@);
    DhtPublicKey(blake2s256_digest(input.as_slice()))
}

/// Generates today's announce key. It rotates every 24 hours so passive
/// observers cannot correlate a node's long-term DHT presence with its identity.
pub fn generate_announce_key(identity: &StaticKeypair) -> (k: DhtPublicKey)
    ensures
        exists|day: u64| k.0@ == announce_key_spec(identity.private@, day),
{
    let day = unix_secs() / SECS_PER_DAY;
    announce_key_for_day(identity, day)
}

} // verus!
