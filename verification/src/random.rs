//! Sources of randomness: the protocol draws nonces, padding and key seeds here.
use vstd::prelude::*;

verus! {

/// Fills `buf` from the thread-local generator of `rand` (`rand::thread_rng`,
/// `RngCore::fill_bytes`). Nothing is claimed of the bytes: they are random.
/// The length of `buf` is unchanged.
#[verifier::external_body]
pub(crate) fn fill_random(buf: &mut [u8])
    ensures
        final(buf)@.len() == old(buf)@.len(),
{
    rand::RngCore::fill_bytes(&mut rand::thread_rng(), buf);
}

/// Fills `buf` from the operating system's generator (`rand::rngs::OsRng`,
/// `RngCore::fill_bytes`). Nothing is claimed of the bytes: they are random.
/// The length of `buf` is unchanged.
#[verifier::external_body]
pub(crate) fn fill_os_random(buf: &mut [u8])
    ensures
        final(buf)@.len() == old(buf)@.len(),
{
    rand::RngCore::fill_bytes(&mut rand::rngs::OsRng, buf);
}

} // verus!
