use vstd::prelude::*;
use crate::crypto::error::ZeroError;

verus! {

/// Errors of onion routing.
#[derive(Debug)]
pub enum OnionError {
    Crypto(ZeroError),
    Serialization,
    InvalidPath,
    PayloadTooLarge,
    InvalidPacket,
}

impl OnionError {
    /// The error's message.
    pub fn message(&self) -> (r: String)
        ensures
            r@ == match self {
                OnionError::Crypto(_) => "Crypto error"@,
                OnionError::Serialization => "Serialization error"@,
                OnionError::InvalidPath => "Path is invalid"@,
                OnionError::PayloadTooLarge => "Payload too large"@,
                OnionError::InvalidPacket => "Invalid packet format"@,
            },
    {
        match self {
            OnionError::Crypto(_) => "Crypto error".to_string(),
            OnionError::Serialization => "Serialization error".to_string(),
            OnionError::InvalidPath => "Path is invalid".to_string(),
            OnionError::PayloadTooLarge => "Payload too large".to_string(),
            OnionError::InvalidPacket => "Invalid packet format".to_string(),
        }
    }
}

impl From<ZeroError> for OnionError {
    fn from(e: ZeroError) -> (r: OnionError) {
        OnionError::Crypto(e)
    }
}

impl vstd::std_specs::convert::FromSpecImpl<ZeroError> for OnionError {
    open spec fn obeys_from_spec() -> bool {
        true
    }

    open spec fn from_spec(e: ZeroError) -> OnionError {
        OnionError::Crypto(e)
    }
}

} // verus!
