use vstd::prelude::*;
use crate::crypto::curve::{ed25519_scalar_bytes, ed25519_seed_scalar, x25519_public, x25519_public_key, x25519_random_secret};
use crate::random::fill_os_random;

verus! {

/// A long-term static keypair for X25519, linked to Ed25519.
///
/// The master `seed` is an Ed25519 signing seed; `private` is its X25519
/// scalar and `public` the matching X25519 public key.
pub struct StaticKeypair {
    pub seed: [u8; 32],
    pub private: [u8; 32],
    pub public: [u8; 32],
}

impl StaticKeypair {
    /// The three keys belong together: the private scalar is derived from the
    /// seed and the public key from the private scalar.
    pub open spec fn wf(&self) -> bool {
        &&& self.private@ == ed25519_seed_scalar(self.seed@)
        &&& self.public@ == x25519_public_key(self.private@)
    }

    /// Generates a new static keypair using the OS random number generator.
    pub fn generate() -> (kp: Self)
        ensures
            kp.wf(),
    {
        let mut seed = [0u8; 32];
        fill_os_random(&mut seed);
        Self::from_bytes(seed)
    }

    /// Restores a keypair from raw master seed bytes.
    pub fn from_bytes(seed_bytes: [u8; 32]) -> (kp: Self)
        ensures
            kp.seed == seed_bytes,
            kp.wf(),
    {
        let x25519_priv = ed25519_scalar_bytes(&seed_bytes);
        let public = x25519_public(&x25519_priv);
        StaticKeypair { seed: seed_bytes, private: x25519_priv, public }
    }
}

/// An ephemeral keypair for short-lived X25519 sessions.
#[derive(Debug, Clone)]
pub struct EphemeralKeypair {
    pub private: [u8; 32],
    pub public: [u8; 32],
}

impl EphemeralKeypair {
    /// Generates a new ephemeral keypair using the OS random number generator.
    pub fn generate() -> (kp: Self)
        ensures
            kp.public@ == x25519_public_key(kp.private@),
    {
        let private = x25519_random_secret();
        let public = x25519_public(&private);
        EphemeralKeypair { private, public }
    }
}

/// A keypair specifically for DHT operations.
pub struct DhtKeypair {
    pub private: [u8; 32],
    pub public: [u8; 32],
}

impl DhtKeypair {
    /// Generates a new DHT keypair using the OS random number generator.
    pub fn generate() -> (kp: Self)
        ensures
            kp.public@ == x25519_public_key(kp.private@),
    {
        let private = x25519_random_secret();
        let public = x25519_public(&private);
        DhtKeypair { private, public }
    }
}

} // verus!
