use vstd::prelude::*;
use crate::clock::unix_secs;
use crate::crypto::aead::{aead_len_ok, chacha20poly1305_seal, encrypt};
use crate::crypto::curve::{
    ed25519_public, ed25519_public_key, ed25519_seed_scalar, ed25519_sign, ed25519_signature, ed25519_to_x25519,
    ed25519_verifies, x25519_diffie_hellman, x25519_public_key, x25519_shared_secret,
};
use crate::crypto::kdf::{derive_key, derive_key_spec};
use crate::crypto::keypair::StaticKeypair;
use crate::crypto::pow::{generate_pow, meets_difficulty, pow_hash};
use crate::offload::blob::{
    blob_pow_context, blob_pow_ok, blob_sig_ok, blob_signed_bytes, pow_context, signed_bytes, IdentityPublicKey,
    OfflineBlob, BLOB_POW_DIFFICULTY,
};
use crate::offload::error::OffloadError;
use crate::random::fill_random;

verus! {

/// How long an offline blob is kept: seven days, in seconds.
pub const BLOB_LIFETIME_SECS: u64 = 604800;

/// The context string of the offline-message key derivation.
pub open spec fn offload_context() -> Seq<u8> {
    "zero-offload"@.map_values(|c: char| c as u8)
}

/// The key an offline message to `recipient_pk` is sealed with.
pub open spec fn offload_key(sender_private: Seq<u8>, recipient_pk: Seq<u8>) -> Seq<u8> {
    derive_key_spec(x25519_shared_secret(sender_private, recipient_pk), offload_context(), seq![0u8; 32])
}

fn offload_context_bytes() -> (v: Vec<u8>)
    ensures
        v@ == offload_context(),
{
    let v: Vec<u8> = vec![0x7a, 0x65, 0x72, 0x6f, 0x2d, 0x6f, 0x66, 0x66, 0x6c, 0x6f, 0x61, 0x64];
    proof {
        reveal_strlit("zero-offload");
        assert(v@ =~= offload_context());
    }
    v
}

/// Helper for a sender preparing an offline message.
pub struct OffloadClient;

impl OffloadClient {
    /// Creates an offline message destined for `recipient_pk`, with a fresh
    /// random nonce, expiring seven days from now (saturating at the end of
    /// time). Performs the proof of work.
    pub fn create_message(sender_identity: &StaticKeypair, recipient_pk: &[u8; 32], plaintext: &[u8]) -> (r: Result<OfflineBlob, OffloadError>)
        requires
            sender_identity.wf(),
        ensures
            !aead_len_ok(plaintext@.len()) ==> r matches Err(OffloadError::Crypto(_)),
            r matches Ok(b) ==> blob_pow_ok(b) && blob_sig_ok(b)
                && b.ciphertext@ == chacha20poly1305_seal(offload_key(sender_identity.private@, recipient_pk@), b.nonce@, plaintext@, Seq::<u8>::empty())
                && b.sender_dht_pk.0 == sender_identity.public,
            r matches Err(e) ==> (e matches OffloadError::Crypto(_) && !aead_len_ok(plaintext@.len()))
                || (e is InvalidPow && aead_len_ok(plaintext@.len())),
    {
        let mut nonce = [0u8; 12];
        fill_random(&mut nonce);
        let now = unix_secs();
        let expires_at = now.saturating_add(BLOB_LIFETIME_SECS);
        Self::create_message_with(sender_identity, recipient_pk, plaintext, nonce, expires_at)
    }

    /// Creates an offline message with the given nonce and expiry.
    ///
    /// The plaintext is sealed under a key derived from the X25519 secret of
    /// the sender's private key and the recipient's key; the proof of work is
    /// the first nonce that meets 18 bits; the sender's seed signs the blob.
    pub fn create_message_with(
        sender_identity: &StaticKeypair,
        recipient_pk: &[u8; 32],
        plaintext: &[u8],
        nonce: [u8; 12],
        expires_at: u64,
    ) -> (r: Result<OfflineBlob, OffloadError>)
        requires
            sender_identity.wf(),
        ensures
            !aead_len_ok(plaintext@.len()) ==> r matches Err(OffloadError::Crypto(_)),
            r matches Err(e) ==> (e matches OffloadError::Crypto(_) && !aead_len_ok(plaintext@.len()))
                || (e is InvalidPow && aead_len_ok(plaintext@.len())),
            r matches Ok(b) ==> {
                &&& b.nonce == nonce
                &&& b.ciphertext@ == chacha20poly1305_seal(offload_key(sender_identity.private@, recipient_pk@), nonce@, plaintext@, Seq::<u8>::empty())
                &&& b.sender_pk.0@ == ed25519_public_key(sender_identity.seed@)
                &&& b.sender_dht_pk.0 == sender_identity.public
                &&& b.expires_at == expires_at
                &&& blob_pow_ok(b)
                &&& forall|m: u64| m < b.pow_nonce ==> !meets_difficulty(
                    #[trigger] pow_hash(blob_pow_context(b.sender_pk.0@, expires_at, b.ciphertext@), m), BLOB_POW_DIFFICULTY as nat)
                &&& b.sender_sig@ == ed25519_signature(sender_identity.seed@, blob_signed_bytes(nonce@, b.ciphertext@, expires_at, b.pow_token@))
                &&& blob_sig_ok(b)
            },
            aead_len_ok(plaintext@.len()) && r is Err ==> forall|m: u64| !meets_difficulty(
                #[trigger] pow_hash(blob_pow_context(ed25519_public_key(sender_identity.seed@), expires_at,
                    chacha20poly1305_seal(offload_key(sender_identity.private@, recipient_pk@), nonce@, plaintext@, Seq::<u8>::empty())), m),
                BLOB_POW_DIFFICULTY as nat),
    {
        let shared = x25519_diffie_hellman(&sender_identity.private, recipient_pk);
        let ctx = offload_context_bytes();
        let zero_salt = [0u8; 32];
        assert(zero_salt@ =~= seq![0u8; 32]);
        let key = derive_key(&shared, ctx.as_slice(), &zero_salt);
        let empty: [u8; 0] = [];
        assert(empty@ =~= Seq::<u8>::empty());
        let ciphertext = match encrypt(&key, &nonce, plaintext, &empty) {
            Ok(c) => c,
            Err(e) => {
                return Err(OffloadError::Crypto(e));
            },
        };
        let sender_pk = IdentityPublicKey(ed25519_public(&sender_identity.seed));
        let sender_dht_pk = IdentityPublicKey(sender_identity.public);
        let context = pow_context(&sender_pk.0, expires_at, ciphertext.as_slice());
        let (pow_token, pow_nonce) = match generate_pow(context.as_slice(), BLOB_POW_DIFFICULTY) {
            Some(found) => found,
            None => {
                return Err(OffloadError::InvalidPow);
            },
        };
        let msg_to_sign = signed_bytes(&nonce, ciphertext.as_slice(), expires_at, &pow_token);
        let sig = ed25519_sign(&sender_identity.seed, msg_to_sign.as_slice());
        let sender_sig = crate::bytes::bytes_to_vec(&sig);
        Ok(OfflineBlob { nonce, ciphertext, sender_sig, sender_pk, sender_dht_pk, expires_at, pow_token, pow_nonce })
    }
}

} // verus!
