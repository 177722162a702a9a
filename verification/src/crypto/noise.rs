use vstd::prelude::*;
use crate::crypto::error::ZeroError;
use crate::crypto::keypair::StaticKeypair;

verus! {

/// A Noise handshake in progress (`snow::HandshakeState`).
#[verifier::external_type_specification]
#[verifier::external_body]
pub struct ExHandshakeState(snow::HandshakeState);

/// An established Noise transport channel (`snow::TransportState`).
#[verifier::external_type_specification]
#[verifier::external_body]
pub struct ExTransportState(snow::TransportState);

/// The Noise protocol the handshake runs.
pub const NOISE_PARAMS: &'static str = "Noise_IK_25519_ChaChaPoly_BLAKE2s";

/// Builds the initiator side of the handshake named `pattern` with
/// `snow::Builder` (parsing the name, setting the local private and the
/// remote public key, `build_initiator`). With the default resolver the
/// name `NOISE_PARAMS` parses, every primitive it names resolves, and both
/// keys the IK pattern needs are set, so `snow`'s `build` succeeds
/// for it; of other names nothing is claimed, nor of the state.
#[verifier::external_body]
fn snow_initiator(pattern: &str, local_private: &[u8; 32], remote_public: &[u8; 32]) -> (r: Result<snow::HandshakeState, snow::Error>)
    ensures
        pattern@ == NOISE_PARAMS@ ==> r is Ok,
{
    let params: snow::params::NoiseParams = pattern.parse()?;
    snow::Builder::new(params).local_private_key(local_private).remote_public_key(remote_public).build_initiator()
}

/// Builds the responder side of the handshake named `pattern` with
/// `snow::Builder` (parsing the name, setting the local private key,
/// `build_responder`). With the default resolver the name `NOISE_PARAMS`
/// parses, every primitive it names resolves, and the local key the IK
/// responder needs is set, so `snow`'s `build` succeeds for it; of
/// other names nothing is claimed, nor of the state.
#[verifier::external_body]
fn snow_responder(pattern: &str, local_private: &[u8; 32]) -> (r: Result<snow::HandshakeState, snow::Error>)
    ensures
        pattern@ == NOISE_PARAMS@ ==> r is Ok,
{
    let params: snow::params::NoiseParams = pattern.parse()?;
    snow::Builder::new(params).local_private_key(local_private).build_responder()
}

/// Builds the initiator state for a Noise IK handshake.
///
/// The local static private key and the remote static public key are handed
/// to `snow`, which builds the IK state for any pair of keys.
pub fn build_initiator(local_static: &StaticKeypair, remote_static_pubkey: &[u8; 32]) -> (res: Result<snow::HandshakeState, ZeroError>)
    ensures
        res is Ok,
{
    match snow_initiator(NOISE_PARAMS, &local_static.private, remote_static_pubkey) {
        Ok(hs) => Ok(hs),
        Err(e) => Err(ZeroError::Handshake(e)),
    }
}

/// Builds the responder state for a Noise IK handshake.
///
/// The local static private key is handed to `snow`, which builds the IK
/// responder state for any key.
pub fn build_responder(local_static: &StaticKeypair) -> (res: Result<snow::HandshakeState, ZeroError>)
    ensures
        res is Ok,
{
    match snow_responder(NOISE_PARAMS, &local_static.private) {
        Ok(hs) => Ok(hs),
        Err(e) => Err(ZeroError::Handshake(e)),
    }
}

/// `snow::HandshakeState::write_message`: writes the next handshake
/// message, carrying `payload`, into `message` and returns its length, which
/// the source checks against the buffer before writing. Nothing is claimed
/// of the bytes or of the state.
#[verifier::external_body]
pub(crate) fn noise_write_message(hs: &mut snow::HandshakeState, payload: &[u8], message: &mut Vec<u8>) -> (r: Result<usize, snow::Error>)
    ensures
        final(message)@.len() == old(message)@.len(),
        r matches Ok(n) ==> n <= old(message)@.len(),
{
    hs.write_message(payload, message.as_mut_slice())
}

/// `snow::HandshakeState::read_message`: reads the peer's next handshake
/// message into the state, writing any payload into `payload`. Nothing is
/// claimed of the result.
#[verifier::external_body]
pub(crate) fn noise_read_message(hs: &mut snow::HandshakeState, message: &[u8], payload: &mut Vec<u8>) -> (r: Result<usize, snow::Error>)
    ensures
        final(payload)@.len() == old(payload)@.len(),
{
    hs.read_message(message, payload.as_mut_slice())
}

/// `snow::HandshakeState::into_transport_mode`: turns a finished handshake
/// into a transport channel; fails when the handshake is not finished.
/// Nothing is claimed of which.
#[verifier::external_body]
pub(crate) fn noise_into_transport(hs: snow::HandshakeState) -> (r: Result<snow::TransportState, snow::Error>) {
    hs.into_transport_mode()
}

} // verus!
