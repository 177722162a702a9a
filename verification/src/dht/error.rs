use vstd::prelude::*;

verus! {

/// The error kind behind `bincode::Error`.
#[verifier::external_type_specification]
#[verifier::external_body]
pub struct ExBincodeErrorKind(bincode::ErrorKind);

/// Errors of the DHT layer.
#[derive(Debug)]
pub enum DhtError {
    /// Routing table is full.
    BucketFull,
    /// Node not found.
    NodeNotFound,
    /// Invalid packet.
    InvalidPacket,
    /// Serialization error.
    SerializationError(Box<bincode::ErrorKind>),
}

impl DhtError {
    /// The error's message; an inner error's own text is added by the caller.
    pub fn message(&self) -> (r: String)
        ensures
            r@ == match self {
                DhtError::BucketFull => "Routing table is full"@,
                DhtError::NodeNotFound => "Node not found"@,
                DhtError::InvalidPacket => "Invalid packet"@,
                DhtError::SerializationError(_) => "Serialization error"@,
            },
    {
        match self {
            DhtError::BucketFull => "Routing table is full".to_string(),
            DhtError::NodeNotFound => "Node not found".to_string(),
            DhtError::InvalidPacket => "Invalid packet".to_string(),
            DhtError::SerializationError(_) => "Serialization error".to_string(),
        }
    }
}

} // verus!
