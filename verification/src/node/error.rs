use vstd::prelude::*;
use crate::dht::error::DhtError;
use crate::net::error::NetError;
use crate::session::error::SessionError;

verus! {

/// Errors of the node, from the layers below it.
#[derive(Debug)]
pub enum CoreError {
    Dht(DhtError),
    Net(NetError),
    Session(SessionError),
}

impl CoreError {
    /// The error's message; the inner error's own text is added by the caller.
    pub fn message(&self) -> (r: String)
        ensures
            r@ == match self {
                CoreError::Dht(_) => "DHT Error"@,
                CoreError::Net(_) => "Net Error"@,
                CoreError::Session(_) => "Session Error"@,
            },
    {
        match self {
            CoreError::Dht(_) => "DHT Error".to_string(),
            CoreError::Net(_) => "Net Error".to_string(),
            CoreError::Session(_) => "Session Error".to_string(),
        }
    }
}

impl From<DhtError> for CoreError {
    fn from(e: DhtError) -> (r: CoreError) {
        CoreError::Dht(e)
    }
}

impl vstd::std_specs::convert::FromSpecImpl<DhtError> for CoreError {
    open spec fn obeys_from_spec() -> bool {
        true
    }

    open spec fn from_spec(e: DhtError) -> CoreError {
        CoreError::Dht(e)
    }
}

impl From<NetError> for CoreError {
    fn from(e: NetError) -> (r: CoreError) {
        CoreError::Net(e)
    }
}

impl vstd::std_specs::convert::FromSpecImpl<NetError> for CoreError {
    open spec fn obeys_from_spec() -> bool {
        true
    }

    open spec fn from_spec(e: NetError) -> CoreError {
        CoreError::Net(e)
    }
}

impl From<SessionError> for CoreError {
    fn from(e: SessionError) -> (r: CoreError) {
        CoreError::Session(e)
    }
}

impl vstd::std_specs::convert::FromSpecImpl<SessionError> for CoreError {
    open spec fn obeys_from_spec() -> bool {
        true
    }

    open spec fn from_spec(e: SessionError) -> CoreError {
        CoreError::Session(e)
    }
}

} // verus!
