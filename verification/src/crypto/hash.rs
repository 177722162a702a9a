use vstd::prelude::*;
use blake2::Digest;

verus! {

/// The BLAKE2s-256 digest of `data`, as computed by the `blake2` crate.
pub uninterp spec fn blake2s256(data: Seq<u8>) -> Seq<u8>;

/// Computes the BLAKE2s-256 digest of `data` with `blake2::Blake2s256`
/// (`Digest::digest`). The result is named `blake2s256(data)`; nothing else
/// about the hash function is claimed.
#[verifier::external_body]
pub(crate) fn blake2s256_digest(data: &[u8]) -> (h: [u8; 32])
    ensures
        h@ == blake2s256(data@),
{
    blake2::Blake2s256::digest(data).into()
}

/// BLAKE2s-256 over a domain-separation label followed by a 32-byte key.
pub fn labelled_digest(label: Vec<u8>, key: &[u8; 32]) -> (h: [u8; 32])
    ensures
        h@ == blake2s256(label@ + key@),
{
    let mut input = label;
    input.extend_from_slice(key);
    assert(input@ =~= label@ + key@);
    blake2s256_digest(input.as_slice())
}

} // verus!
