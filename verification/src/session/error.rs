use vstd::prelude::*;
use crate::crypto::error::ZeroError;

verus! {

/// Errors of the session layer.
#[derive(Debug)]
pub enum SessionError {
    Crypto(ZeroError),
    Network,
    OutOfOrder,
}

impl SessionError {
    /// The error's message.
    pub fn message(&self) -> (r: String)
        ensures
            r@ == match self {
                SessionError::Crypto(_) => "Crypto error"@,
                SessionError::Network => "Net error"@,
                SessionError::OutOfOrder => "Message out of order"@,
            },
    {
        match self {
            SessionError::Crypto(_) => "Crypto error".to_string(),
            SessionError::Network => "Net error".to_string(),
            SessionError::OutOfOrder => "Message out of order".to_string(),
        }
    }
}

impl From<ZeroError> for SessionError {
    fn from(e: ZeroError) -> (r: SessionError) {
        SessionError::Crypto(e)
    }
}

impl vstd::std_specs::convert::FromSpecImpl<ZeroError> for SessionError {
    open spec fn obeys_from_spec() -> bool {
        true
    }

    open spec fn from_spec(e: ZeroError) -> SessionError {
        SessionError::Crypto(e)
    }
}

} // verus!
