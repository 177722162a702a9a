use vstd::prelude::*;
use crate::crypto::aead::{chacha20poly1305_open, chacha20poly1305_seal, encrypt};
use crate::crypto::curve::{ed25519_public, ed25519_public_key, ed25519_sign, ed25519_signature, ed25519_verifies};
use crate::crypto::kdf::{derive_key, derive_key_spec};
use crate::crypto::keypair::StaticKeypair;
use crate::random::fill_random;

verus! {

/// The UDP port of LAN discovery.
pub const LAN_DISCOVERY_PORT: u16 = 33450;

/// Seconds between two LAN announcements.
pub const LAN_ANNOUNCE_INTERVAL_SECS: u64 = 10;

/// The well-known secret of the LAN key: the ASCII label
/// `zero-lan-shared-salt-derivation` and a zero byte, 32 bytes.
pub open spec fn lan_secret() -> Seq<u8> {
    "zero-lan-shared-salt-derivation"@.map_values(|c: char| c as u8).push(0u8)
}

/// The context of the LAN key: the ASCII label `zero-lan-encryption`.
pub open spec fn lan_context() -> Seq<u8> {
    "zero-lan-encryption"@.map_values(|c: char| c as u8)
}

/// The key every node derives for LAN announcements.
pub open spec fn lan_key() -> Seq<u8> {
    derive_key_spec(lan_secret(), lan_context(), seq![0u8; 32])
}

/// The magic bytes `ZLAN` that begin an announcement.
pub open spec fn lan_magic() -> Seq<u8> {
    seq![0x5a, 0x4c, 0x41, 0x4e]
}

/// What an announcement says: the Ed25519 verifying key of the seed, then
/// its signature of the X25519 public key.
pub open spec fn lan_claim(seed: Seq<u8>, public: Seq<u8>) -> Seq<u8> {
    ed25519_public_key(seed) + ed25519_signature(seed, public)
}

/// The bytes of an announcement: the magic, the nonce, and the claim
/// sealed under the LAN key.
pub open spec fn lan_announcement_wire(seed: Seq<u8>, public: Seq<u8>, nonce: Seq<u8>) -> Seq<u8> {
    lan_magic() + nonce + chacha20poly1305_seal(lan_key(), nonce, lan_claim(seed, public), Seq::<u8>::empty())
}

fn lan_secret_bytes() -> (s: [u8; 32])
    ensures
        s@ == lan_secret(),
{
    let s: [u8; 32] = [
        0x7a, 0x65, 0x72, 0x6f, 0x2d, 0x6c, 0x61, 0x6e, 0x2d, 0x73, 0x68, 0x61, 0x72, 0x65, 0x64, 0x2d,
        0x73, 0x61, 0x6c, 0x74, 0x2d, 0x64, 0x65, 0x72, 0x69, 0x76, 0x61, 0x74, 0x69, 0x6f, 0x6e, 0x00,
    ];
    proof {
        reveal_strlit("zero-lan-shared-salt-derivation");
        assert(s@ =~= lan_secret());
    }
    s
}

fn lan_context_bytes() -> (c: Vec<u8>)
    ensures
        c@ == lan_context(),
{
    let c: Vec<u8> = vec![
        0x7a, 0x65, 0x72, 0x6f, 0x2d, 0x6c, 0x61, 0x6e, 0x2d, 0x65, 0x6e, 0x63, 0x72, 0x79, 0x70, 0x74, 0x69, 0x6f, 0x6e,
    ];
    proof {
        reveal_strlit("zero-lan-encryption");
        assert(c@ =~= lan_context());
    }
    c
}

/// Builds a LAN announcement with the given nonce. Whoever derives the
/// LAN key opens it to the verifying key of our seed and a signature, by
/// that key, of our X25519 public key.
pub fn lan_announcement_with(keypair: &StaticKeypair, nonce: [u8; 12]) -> (packet: Vec<u8>)
    ensures
        packet@ == lan_announcement_wire(keypair.seed@, keypair.public@, nonce@),
        chacha20poly1305_open(lan_key(), nonce@, packet@.skip(16), Seq::<u8>::empty())
            == Some(lan_claim(keypair.seed@, keypair.public@)),
        ed25519_verifies(ed25519_public_key(keypair.seed@), keypair.public@, ed25519_signature(keypair.seed@, keypair.public@)),
{
    let secret = lan_secret_bytes();
    let context = lan_context_bytes();
    let salt = [0u8; 32];
    assert(salt@ =~= seq![0u8; 32]);
    let key = derive_key(&secret, context.as_slice(), &salt);
    let verify_key = ed25519_public(&keypair.seed);
    let sig = ed25519_sign(&keypair.seed, &keypair.public);
    let mut plaintext: Vec<u8> = Vec::new();
    plaintext.extend_from_slice(&verify_key);
    plaintext.extend_from_slice(&sig);
    assert(plaintext@ =~= lan_claim(keypair.seed@, keypair.public@));
    let empty: [u8; 0] = [];
    assert(empty@ =~= Seq::<u8>::empty());
    let mut packet: Vec<u8> = vec![0x5a, 0x4c, 0x41, 0x4e];
    packet.extend_from_slice(&nonce);
    match encrypt(&key, &nonce, plaintext.as_slice(), &empty) {
        Ok(ciphertext) => {
            packet.extend_from_slice(ciphertext.as_slice());
            assert(packet@.skip(16) =~= ciphertext@);
        },
        Err(_) => {
            assert(false);
        },
    }
    assert(packet@ =~= lan_announcement_wire(keypair.seed@, keypair.public@, nonce@));
    packet
}

/// Builds a LAN announcement with a fresh random nonce.
pub fn lan_announcement(keypair: &StaticKeypair) -> (packet: Vec<u8>)
    ensures
        exists|nonce: Seq<u8>| nonce.len() == 12 && packet@ == #[trigger] lan_announcement_wire(keypair.seed@, keypair.public@, nonce),
{
    let mut nonce = [0u8; 12];
    fill_random(&mut nonce);
    lan_announcement_with(keypair, nonce)
}

} // verus!
