use vstd::prelude::*;
use crate::crypto::error::ZeroError;
use chacha20poly1305::aead::{Aead, KeyInit, Payload};

verus! {

/// The ChaCha20-Poly1305 ciphertext (with its 16-byte tag appended) of
/// `plaintext` under `key`, `nonce` and `aad`, as computed by `chacha20poly1305`.
pub uninterp spec fn chacha20poly1305_seal(key: Seq<u8>, nonce: Seq<u8>, plaintext: Seq<u8>, aad: Seq<u8>) -> Seq<u8>;

/// The plaintext that `chacha20poly1305` recovers from `ciphertext` under
/// `key`, `nonce` and `aad`, or `None` when authentication fails.
pub uninterp spec fn chacha20poly1305_open(key: Seq<u8>, nonce: Seq<u8>, ciphertext: Seq<u8>, aad: Seq<u8>) -> Option<Seq<u8>>;

/// Largest plaintext (and tag-less ciphertext) length that ChaCha20-Poly1305
/// in the `chacha20poly1305` crate accepts: fewer than 2^32 - 1 blocks of 64 bytes.
pub open spec fn aead_len_ok(len: nat) -> bool {
    len / 64 < 0xFFFF_FFFF
}

/// Encrypts with `chacha20poly1305::ChaCha20Poly1305` (`Aead::encrypt` with a
/// `Payload`). The crate's source fails only when the message has 2^32 - 1 or
/// more 64-byte blocks; otherwise the ciphertext is the message length plus
/// the 16-byte tag, named `chacha20poly1305_seal`, and (AEAD correctness, as
/// the crate documents) opening it with the same key, nonce and `aad` gives
/// the plaintext back.
#[verifier::external_body]
fn chacha_encrypt(key: &[u8; 32], nonce: &[u8; 12], plaintext: &[u8], aad: &[u8]) -> (res: Option<Vec<u8>>)
    ensures
        res is Some <==> aead_len_ok(plaintext@.len()),
        res matches Some(c) ==> c@ == chacha20poly1305_seal(key@, nonce@, plaintext@, aad@)
            && c@.len() == plaintext@.len() + 16
            && chacha20poly1305_open(key@, nonce@, c@, aad@) == Some(plaintext@),
{
    let cipher = chacha20poly1305::ChaCha20Poly1305::new(chacha20poly1305::Key::from_slice(key));
    cipher.encrypt(chacha20poly1305::Nonce::from_slice(nonce), Payload { msg: plaintext, aad }).ok()
}

/// Decrypts with `chacha20poly1305::ChaCha20Poly1305` (`Aead::decrypt` with a
/// `Payload`). The result is the named `chacha20poly1305_open`; the crate's
/// source rejects ciphertexts shorter than the tag and returns the
/// ciphertext without its 16-byte tag.
#[verifier::external_body]
fn chacha_decrypt(key: &[u8; 32], nonce: &[u8; 12], ciphertext: &[u8], aad: &[u8]) -> (res: Option<Vec<u8>>)
    ensures
        res is Some <==> chacha20poly1305_open(key@, nonce@, ciphertext@, aad@) is Some,
        res matches Some(p) ==> chacha20poly1305_open(key@, nonce@, ciphertext@, aad@) == Some(p@)
            && p@.len() + 16 == ciphertext@.len(),
        ciphertext@.len() < 16 ==> res is None,
{
    let cipher = chacha20poly1305::ChaCha20Poly1305::new(chacha20poly1305::Key::from_slice(key));
    cipher.decrypt(chacha20poly1305::Nonce::from_slice(nonce), Payload { msg: ciphertext, aad }).ok()
}

/// Encrypts data using ChaCha20-Poly1305.
pub fn encrypt(key: &[u8; 32], nonce: &[u8; 12], plaintext: &[u8], associated_data: &[u8]) -> (res: Result<Vec<u8>, ZeroError>)
    ensures
        res is Ok <==> aead_len_ok(plaintext@.len()),
        res matches Ok(c) ==> c@ == chacha20poly1305_seal(key@, nonce@, plaintext@, associated_data@)
            && c@.len() == plaintext@.len() + 16
            && chacha20poly1305_open(key@, nonce@, c@, associated_data@) == Some(plaintext@),
        res matches Err(e) ==> e is EncryptionError,
{
    match chacha_encrypt(key, nonce, plaintext, associated_data) {
        Some(c) => Ok(c),
        None => Err(ZeroError::EncryptionError),
    }
}

/// Decrypts data using ChaCha20-Poly1305.
pub fn decrypt(key: &[u8; 32], nonce: &[u8; 12], ciphertext: &[u8], associated_data: &[u8]) -> (res: Result<Vec<u8>, ZeroError>)
    ensures
        res is Ok <==> chacha20poly1305_open(key@, nonce@, ciphertext@, associated_data@) is Some,
        res matches Ok(p) ==> chacha20poly1305_open(key@, nonce@, ciphertext@, associated_data@) == Some(p@)
            && p@.len() + 16 == ciphertext@.len(),
        res matches Err(e) ==> e is DecryptionError,
{
    match chacha_decrypt(key, nonce, ciphertext, associated_data) {
        Some(p) => Ok(p),
        None => Err(ZeroError::DecryptionError),
    }
}

} // verus!
