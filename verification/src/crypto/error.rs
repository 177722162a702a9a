use vstd::prelude::*;

verus! {

/// The error type of the `snow` Noise framework.
#[verifier::external_type_specification]
#[verifier::external_body]
pub struct ExSnowError(snow::Error);

/// Errors of the cryptographic layer.
#[derive(Debug)]
pub enum ZeroError {
    /// The Noise handshake could not be set up or advanced.
    Handshake(snow::Error),
    /// AEAD encryption failed.
    EncryptionError,
    /// AEAD decryption or authentication failed.
    DecryptionError,
    /// A proof-of-work token does not match its context or difficulty.
    InvalidProofOfWork,
    /// Passphrase-sealed storage could not be derived or opened.
    StorageError,
    /// A signature did not verify.
    InvalidSignature,
    /// Key material or entropy had the wrong length.
    InvalidKeyLength,
}

impl ZeroError {
    /// The error's message; an inner error's own text is added by the caller.
    pub fn message(&self) -> (r: String)
        ensures
            r@ == match self {
                ZeroError::Handshake(_) => "Handshake error"@,
                ZeroError::EncryptionError => "Encryption error"@,
                ZeroError::DecryptionError => "Decryption error"@,
                ZeroError::InvalidProofOfWork => "Proof of work is invalid"@,
                ZeroError::StorageError => "Storage error"@,
                ZeroError::InvalidSignature => "Invalid signature"@,
                ZeroError::InvalidKeyLength => "Invalid key length or entropy"@,
            },
    {
        match self {
            ZeroError::Handshake(_) => "Handshake error".to_string(),
            ZeroError::EncryptionError => "Encryption error".to_string(),
            ZeroError::DecryptionError => "Decryption error".to_string(),
            ZeroError::InvalidProofOfWork => "Proof of work is invalid".to_string(),
            ZeroError::StorageError => "Storage error".to_string(),
            ZeroError::InvalidSignature => "Invalid signature".to_string(),
            ZeroError::InvalidKeyLength => "Invalid key length or entropy".to_string(),
        }
    }
}

} // verus!
