use vstd::prelude::*;

verus! {

/// An I/O error of the standard library.
#[verifier::external_type_specification]
#[verifier::external_body]
pub struct ExIoError(std::io::Error);

/// The error of a UPnP gateway search.
#[verifier::external_type_specification]
#[verifier::external_body]
pub struct ExSearchError(igd::SearchError);

/// The error of a UPnP port mapping.
#[verifier::external_type_specification]
#[verifier::external_body]
pub struct ExAddPortError(igd::AddPortError);

/// Errors of the transports.
#[derive(Debug)]
pub enum NetError {
    Io(std::io::Error),
    Upnp(igd::SearchError),
    UpnpAddPort(igd::AddPortError),
    TransportUnavailable,
}

impl NetError {
    /// The error's message; the outside errors' own text is added by the caller.
    pub fn message(&self) -> (r: String)
        ensures
            r@ == match self {
                NetError::Io(_) => "I/O error"@,
                NetError::Upnp(_) => "UPnP search error"@,
                NetError::UpnpAddPort(_) => "UPnP add port error"@,
                NetError::TransportUnavailable => "Transport not available"@,
            },
    {
        match self {
            NetError::Io(_) => "I/O error".to_string(),
            NetError::Upnp(_) => "UPnP search error".to_string(),
            NetError::UpnpAddPort(_) => "UPnP add port error".to_string(),
            NetError::TransportUnavailable => "Transport not available".to_string(),
        }
    }
}

impl From<std::io::Error> for NetError {
    fn from(e: std::io::Error) -> (r: NetError) {
        NetError::Io(e)
    }
}

impl vstd::std_specs::convert::FromSpecImpl<std::io::Error> for NetError {
    open spec fn obeys_from_spec() -> bool {
        true
    }

    open spec fn from_spec(e: std::io::Error) -> NetError {
        NetError::Io(e)
    }
}

} // verus!
