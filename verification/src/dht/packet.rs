use vstd::prelude::*;
use crate::dht::node::{DhtPublicKey, LeaseSet, NodeInfo};
use crate::random::fill_random;

verus! {

/// The requests and answers that DHT packets carry.
#[derive(Debug, Clone)]
pub enum DhtPayload {
    PingRequest,
    PingResponse,
    FindNodeRequest { target_pk: DhtPublicKey },
    FindNodeResponse { nodes: Vec<NodeInfo> },
    AnnouncePeer {
        /// The one-day-rotating announce key, NOT the real identity key
        announce_key: DhtPublicKey,
    },
    /// Asks the receiver to keep a node's lease set.
    StoreLeaseRequest { lease: LeaseSet },
    /// Asks for the lease set of a node.
    GetLeaseRequest { target_pk: DhtPublicKey },
    /// The lease set asked for, if the receiver holds one.
    GetLeaseResponse { lease: Option<LeaseSet> },
}

/// A DHT packet: sender, fresh nonce and request id, and the encrypted payload.
#[derive(Debug, Clone)]
pub struct DhtPacket {
    pub sender_pk: DhtPublicKey,
    pub nonce: [u8; 24],
    pub request_id: [u8; 8],
    /// Encrypted `DhtPayload`
    pub encrypted_payload: Vec<u8>,
}

impl DhtPacket {
    /// Creates a new packet with a cryptographically random request ID and nonce.
    pub fn new(sender_pk: DhtPublicKey, encrypted_payload: Vec<u8>) -> (p: Self)
        ensures
            p.sender_pk == sender_pk,
            p.encrypted_payload@ == encrypted_payload@,
    {
        let mut nonce = [0u8; 24];
        let mut request_id = [0u8; 8];
        fill_random(&mut nonce);
        fill_random(&mut request_id);
        DhtPacket { sender_pk, nonce, request_id, encrypted_payload }
    }
}

} // verus!
