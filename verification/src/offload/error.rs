use vstd::prelude::*;
use crate::crypto::error::ZeroError;

verus! {

/// Errors of offline storage.
#[derive(Debug)]
pub enum OffloadError {
    Crypto(ZeroError),
    Serialization,
    InvalidPow,
    InvalidSignature,
    Expired,
    RateLimited,
    InvalidKey,
}

impl OffloadError {
    /// The error's message.
    pub fn message(&self) -> (r: String)
        ensures
            r@ == match self {
                OffloadError::Crypto(_) => "Crypto error"@,
                OffloadError::Serialization => "Serialization error"@,
                OffloadError::InvalidPow => "Invalid proof of work"@,
                OffloadError::InvalidSignature => "Invalid signature"@,
                OffloadError::Expired => "Message expired"@,
                OffloadError::RateLimited => "Rate limit exceeded"@,
                OffloadError::InvalidKey => "Invalid private key length"@,
            },
    {
        match self {
            OffloadError::Crypto(_) => "Crypto error".to_string(),
            OffloadError::Serialization => "Serialization error".to_string(),
            OffloadError::InvalidPow => "Invalid proof of work".to_string(),
            OffloadError::InvalidSignature => "Invalid signature".to_string(),
            OffloadError::Expired => "Message expired".to_string(),
            OffloadError::RateLimited => "Rate limit exceeded".to_string(),
            OffloadError::InvalidKey => "Invalid private key length".to_string(),
        }
    }
}

impl From<ZeroError> for OffloadError {
    fn from(e: ZeroError) -> (r: OffloadError) {
        OffloadError::Crypto(e)
    }
}

impl vstd::std_specs::convert::FromSpecImpl<ZeroError> for OffloadError {
    open spec fn obeys_from_spec() -> bool {
        true
    }

    open spec fn from_spec(e: ZeroError) -> OffloadError {
        OffloadError::Crypto(e)
    }
}

} // verus!
