use vstd::prelude::*;
use crate::crypto::hash::{blake2s256, blake2s256_digest};

verus! {

/// Domain-separation prefix of the key derivation function.
pub open spec fn kdf_domain() -> Seq<u8> {
    "zero-protocol-v1-key-derive"@.map_values(|c: char| c as u8)
}

/// The key derived from a shared secret, a context string and a salt:
/// BLAKE2s-256 over the domain prefix followed by the three inputs.
pub open spec fn derive_key_spec(shared_secret: Seq<u8>, context: Seq<u8>, salt: Seq<u8>) -> Seq<u8> {
    blake2s256(kdf_domain() + shared_secret + context + salt)
}

/// The ASCII bytes of the key-derivation domain prefix.
fn kdf_domain_bytes() -> (d: Vec<u8>)
    ensures
        d@ == kdf_domain(),
{
    let d: Vec<u8> = vec![
        0x7a, 0x65, 0x72, 0x6f, 0x2d, 0x70, 0x72, 0x6f, 0x74, 0x6f, 0x63, 0x6f, 0x6c, 0x2d, 0x76,
        0x31, 0x2d, 0x6b, 0x65, 0x79, 0x2d, 0x64, 0x65, 0x72, 0x69, 0x76, 0x65,
    ];
    proof {
        reveal_strlit("zero-protocol-v1-key-derive");
        assert(d@ =~= kdf_domain());
    }
    d
}

/// Derives a 32-byte symmetric key from an ECDH shared secret.
/// Never use the raw ECDH output as an encryption key.
pub fn derive_key(shared_secret: &[u8; 32], context: &[u8], salt: &[u8; 32]) -> (key: [u8; 32])
    ensures
        key@ == derive_key_spec(shared_secret@, context@, salt@),
{
    let mut input = kdf_domain_bytes();
    input.extend_from_slice(shared_secret);
    input.extend_from_slice(context);
    input.extend_from_slice(salt);
    assert(input@ =~= kdf_domain() + shared_secret@ + context@ + salt@);
    blake2s256_digest(input.as_slice())
}

} // verus!
