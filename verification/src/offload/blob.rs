use vstd::prelude::*;
use crate::bytes::{u64_le, u64_to_le_bytes};
use crate::crypto::curve::{ed25519_montgomery, ed25519_to_x25519, ed25519_verifies, ed25519_verify};
use crate::crypto::pow::{pow_valid, verify_pow};
use crate::dht::node::bytes32_eq;
use crate::offload::error::OffloadError;

verus! {

/// Proof-of-work difficulty of an offline blob, in leading zero bits.
pub const BLOB_POW_DIFFICULTY: u32 = 18;

/// The public identity key of a user (Ed25519).
#[derive(Debug, Clone, Copy)]
pub struct IdentityPublicKey(pub [u8; 32]);

impl PartialEq for IdentityPublicKey {
    fn eq(&self, other: &Self) -> (eq: bool) {
        bytes32_eq(&self.0, &other.0)
    }
}

impl vstd::std_specs::cmp::PartialEqSpecImpl for IdentityPublicKey {
    open spec fn obeys_eq_spec() -> bool {
        true
    }

    open spec fn eq_spec(&self, other: &Self) -> bool {
        self.0@ == other.0@
    }
}

impl Eq for IdentityPublicKey {
}

/// A sealed message stored in the DHT for an absent recipient.
#[derive(Debug, Clone)]
pub struct OfflineBlob {
    /// Nonce for ChaCha20-Poly1305 encryption.
    pub nonce: [u8; 12],
    /// Payload encrypted for the recipient (X25519 + KDF + ChaCha20-Poly1305);
    /// the storing node cannot read it.
    pub ciphertext: Vec<u8>,
    /// Ed25519 signature by the sender's identity key (64 bytes when well formed).
    pub sender_sig: Vec<u8>,
    /// Sender's public identity key (needed for signature verification).
    pub sender_pk: IdentityPublicKey,
    /// Sender's DHT identity key (X25519 public key).
    pub sender_dht_pk: IdentityPublicKey,
    /// Unix timestamp (seconds). Nodes drop blobs after it.
    pub expires_at: u64,
    /// Anti-spam proof-of-work hash (18 leading zero bits) and its nonce.
    pub pow_token: [u8; 32],
    pub pow_nonce: u64,
}

/// The proof-of-work context of a blob: sender key, expiry, ciphertext.
pub open spec fn blob_pow_context(sender_pk: Seq<u8>, expires_at: u64, ciphertext: Seq<u8>) -> Seq<u8> {
    sender_pk + u64_le(expires_at) + ciphertext
}

/// The bytes a blob's signature covers: nonce, ciphertext, expiry, PoW hash.
pub open spec fn blob_signed_bytes(nonce: Seq<u8>, ciphertext: Seq<u8>, expires_at: u64, pow_token: Seq<u8>) -> Seq<u8> {
    nonce + ciphertext + u64_le(expires_at) + pow_token
}

/// The blob's proof of work is valid.
pub open spec fn blob_pow_ok(b: OfflineBlob) -> bool {
    pow_valid(blob_pow_context(b.sender_pk.0@, b.expires_at, b.ciphertext@), b.pow_nonce, b.pow_token@, BLOB_POW_DIFFICULTY as nat)
}

/// The blob's identity keys belong together and its signature verifies.
pub open spec fn blob_sig_ok(b: OfflineBlob) -> bool {
    &&& ed25519_to_x25519(b.sender_pk.0@) == Some(b.sender_dht_pk.0@)
    &&& b.sender_sig@.len() == 64
    &&& ed25519_verifies(b.sender_pk.0@, blob_signed_bytes(b.nonce@, b.ciphertext@, b.expires_at, b.pow_token@), b.sender_sig@)
}

/// Builds the proof-of-work context of a blob.
pub fn pow_context(sender_pk: &[u8; 32], expires_at: u64, ciphertext: &[u8]) -> (c: Vec<u8>)
    ensures
        c@ == blob_pow_context(sender_pk@, expires_at, ciphertext@),
{
    let mut c: Vec<u8> = Vec::new();
    c.extend_from_slice(sender_pk);
    let e = u64_to_le_bytes(expires_at);
    c.extend_from_slice(&e);
    c.extend_from_slice(ciphertext);
    assert(c@ =~= blob_pow_context(sender_pk@, expires_at, ciphertext@));
    c
}

/// Builds the bytes a blob's signature covers.
pub fn signed_bytes(nonce: &[u8; 12], ciphertext: &[u8], expires_at: u64, pow_token: &[u8; 32]) -> (m: Vec<u8>)
    ensures
        m@ == blob_signed_bytes(nonce@, ciphertext@, expires_at, pow_token@),
{
    let mut m: Vec<u8> = Vec::new();
    m.extend_from_slice(nonce);
    m.extend_from_slice(ciphertext);
    let e = u64_to_le_bytes(expires_at);
    m.extend_from_slice(&e);
    m.extend_from_slice(pow_token);
    assert(m@ =~= blob_signed_bytes(nonce@, ciphertext@, expires_at, pow_token@));
    m
}

/// Copies a 64-byte signature out of a byte vector of that length.
fn signature_array(s: &Vec<u8>) -> (a: [u8; 64])
    requires
        s@.len() == 64,
    ensures
        a@ == s@,
{
    let mut a = [0u8; 64];
    let mut i: usize = 0;
    while i < 64
        invariant
            i <= 64,
            s@.len() == 64,
            a@.len() == 64,
            forall|j: int| 0 <= j < i ==> a@[j] == s@[j],
        decreases 64 - i,
    {
        a[i] = s[i];
        i = i + 1;
    }
    assert(a@ =~= s@);
    a
}

impl OfflineBlob {
    /// Checks expiry, then the proof of work, then that the identity key
    /// converts to the DHT key and signs the blob. The first failed check
    /// decides the error.
    pub fn verify_integrity(&self, current_time: u64) -> (r: Result<(), OffloadError>)
        ensures
            current_time > self.expires_at ==> r matches Err(OffloadError::Expired),
            current_time <= self.expires_at && !blob_pow_ok(*self) ==> r matches Err(OffloadError::InvalidPow),
            current_time <= self.expires_at && blob_pow_ok(*self) && !blob_sig_ok(*self)
                ==> r matches Err(OffloadError::InvalidSignature),
            r is Ok <==> current_time <= self.expires_at && blob_pow_ok(*self) && blob_sig_ok(*self),
    {
        if current_time > self.expires_at {
            return Err(OffloadError::Expired);
        }
        let context = pow_context(&self.sender_pk.0, self.expires_at, self.ciphertext.as_slice());
        match verify_pow(context.as_slice(), self.pow_nonce, &self.pow_token, BLOB_POW_DIFFICULTY) {
            Ok(()) => {},
            Err(_) => {
                return Err(OffloadError::InvalidPow);
            },
        }
        match ed25519_montgomery(&self.sender_pk.0) {
            Some(x) => {
                if !bytes32_eq(&x, &self.sender_dht_pk.0) {
                    return Err(OffloadError::InvalidSignature);
                }
            },
            None => {
                return Err(OffloadError::InvalidSignature);
            },
        }
        let msg = signed_bytes(&self.nonce, self.ciphertext.as_slice(), self.expires_at, &self.pow_token);
        if self.sender_sig.len() != 64 {
            return Err(OffloadError::InvalidSignature);
        }
        let sig = signature_array(&self.sender_sig);
        if !ed25519_verify(&self.sender_pk.0, msg.as_slice(), &sig) {
            return Err(OffloadError::InvalidSignature);
        }
        Ok(())
    }
}

} // verus!
