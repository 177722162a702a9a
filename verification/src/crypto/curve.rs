use vstd::prelude::*;
use ed25519_dalek::{Signer, Verifier};

verus! {

/// The X25519 public key of a 32-byte secret, as computed by `x25519-dalek`.
pub uninterp spec fn x25519_public_key(secret: Seq<u8>) -> Seq<u8>;

/// The X25519 shared secret of `secret` and `their_public`, as computed by `x25519-dalek`.
pub uninterp spec fn x25519_shared_secret(secret: Seq<u8>, their_public: Seq<u8>) -> Seq<u8>;

/// The unclamped Curve25519 scalar bytes of an Ed25519 signing seed
/// (`ed25519_dalek::SigningKey::to_scalar_bytes`).
pub uninterp spec fn ed25519_seed_scalar(seed: Seq<u8>) -> Seq<u8>;

/// The Ed25519 verifying key of a signing seed, as computed by `ed25519-dalek`.
pub uninterp spec fn ed25519_public_key(seed: Seq<u8>) -> Seq<u8>;

/// The Ed25519 signature of `msg` under a signing seed, as computed by `ed25519-dalek`.
pub uninterp spec fn ed25519_signature(seed: Seq<u8>, msg: Seq<u8>) -> Seq<u8>;

/// Whether `ed25519-dalek` accepts `sig` as a signature of `msg` under the
/// encoded verifying key `public` (false when `public` does not decode).
pub uninterp spec fn ed25519_verifies(public: Seq<u8>, msg: Seq<u8>, sig: Seq<u8>) -> bool;

/// The Montgomery (X25519) form of an encoded Ed25519 verifying key, or
/// `None` when the bytes do not decode to a curve point.
pub uninterp spec fn ed25519_to_x25519(public: Seq<u8>) -> Option<Seq<u8>>;

/// Computes `PublicKey::from(&StaticSecret::from(secret))` with `x25519-dalek`.
/// The result is named `x25519_public_key(secret)`.
#[verifier::external_body]
pub(crate) fn x25519_public(secret: &[u8; 32]) -> (public: [u8; 32])
    ensures
        public@ == x25519_public_key(secret@),
{
    x25519_dalek::PublicKey::from(&x25519_dalek::StaticSecret::from(*secret)).to_bytes()
}

/// Computes `StaticSecret::from(secret).diffie_hellman(&PublicKey::from(their_public))`
/// with `x25519-dalek`. The result is named `x25519_shared_secret`. As the
/// crate documents, both parties of an exchange compute the same secret: for
/// any secret `other` whose public key is `their_public`, the result equals
/// what `other` computes against the public key of `secret`.
#[verifier::external_body]
pub(crate) fn x25519_diffie_hellman(secret: &[u8; 32], their_public: &[u8; 32]) -> (shared: [u8; 32])
    ensures
        shared@ == x25519_shared_secret(secret@, their_public@),
        forall|other: Seq<u8>|
            other.len() == 32 && #[trigger] x25519_public_key(other) == their_public@
                ==> shared@ == x25519_shared_secret(other, x25519_public_key(secret@)),
{
    x25519_dalek::StaticSecret::from(*secret).diffie_hellman(&x25519_dalek::PublicKey::from(*their_public)).to_bytes()
}

/// Draws a fresh X25519 secret with `StaticSecret::random_from_rng(OsRng)` and
/// returns its bytes (`to_bytes`). Nothing is claimed of the bytes: they are random.
#[verifier::external_body]
pub(crate) fn x25519_random_secret() -> (secret: [u8; 32]) {
    x25519_dalek::StaticSecret::random_from_rng(rand::rngs::OsRng).to_bytes()
}

/// Computes `SigningKey::from_bytes(seed).to_scalar_bytes()` with
/// `ed25519-dalek`. The result is named `ed25519_seed_scalar(seed)`.
#[verifier::external_body]
pub(crate) fn ed25519_scalar_bytes(seed: &[u8; 32]) -> (scalar: [u8; 32])
    ensures
        scalar@ == ed25519_seed_scalar(seed@),
{
    ed25519_dalek::SigningKey::from_bytes(seed).to_scalar_bytes()
}

/// Computes `SigningKey::from_bytes(seed).verifying_key().to_bytes()` with
/// `ed25519-dalek`. The result is named `ed25519_public_key(seed)`; as the
/// crate documents for `to_scalar_bytes` and `to_montgomery`, the Montgomery
/// form of this key is the X25519 public key of the seed's scalar bytes.
#[verifier::external_body]
pub(crate) fn ed25519_public(seed: &[u8; 32]) -> (public: [u8; 32])
    ensures
        public@ == ed25519_public_key(seed@),
        ed25519_to_x25519(public@) == Some(x25519_public_key(ed25519_seed_scalar(seed@))),
{
    ed25519_dalek::SigningKey::from_bytes(seed).verifying_key().to_bytes()
}

/// Signs `msg` with `SigningKey::from_bytes(seed)` (`Signer::sign`, then
/// `to_bytes`). The result is named `ed25519_signature`; as for any correct
/// Ed25519 implementation, it verifies under the seed's verifying key.
#[verifier::external_body]
pub(crate) fn ed25519_sign(seed: &[u8; 32], msg: &[u8]) -> (sig: [u8; 64])
    ensures
        sig@ == ed25519_signature(seed@, msg@),
        ed25519_verifies(ed25519_public_key(seed@), msg@, sig@),
{
    ed25519_dalek::SigningKey::from_bytes(seed).sign(msg).to_bytes()
}

/// Decodes `public` with `VerifyingKey::from_bytes` and checks
/// `Verifier::verify` of `msg` against `Signature::from_bytes(sig)` with
/// `ed25519-dalek`; a key that does not decode gives `false`. The result is
/// named `ed25519_verifies`.
#[verifier::external_body]
pub(crate) fn ed25519_verify(public: &[u8; 32], msg: &[u8], sig: &[u8; 64]) -> (ok: bool)
    ensures
        ok == ed25519_verifies(public@, msg@, sig@),
{
    match ed25519_dalek::VerifyingKey::from_bytes(public) {
        Ok(vk) => vk.verify(msg, &ed25519_dalek::Signature::from_bytes(sig)).is_ok(),
        Err(_) => false,
    }
}

/// Decodes `public` with `VerifyingKey::from_bytes` and converts it with
/// `to_montgomery().to_bytes()` (`ed25519-dalek`). The result is named
/// `ed25519_to_x25519`; `None` when the key does not decode.
#[verifier::external_body]
pub(crate) fn ed25519_montgomery(public: &[u8; 32]) -> (x: Option<[u8; 32]>)
    ensures
        x is Some <==> ed25519_to_x25519(public@) is Some,
        x matches Some(k) ==> ed25519_to_x25519(public@) == Some(k@),
{
    match ed25519_dalek::VerifyingKey::from_bytes(public) {
        Ok(vk) => Some(vk.to_montgomery().to_bytes()),
        Err(_) => None,
    }
}

} // verus!
