use vstd::prelude::*;
use crate::crypto::aead::{aead_len_ok, chacha20poly1305_open, chacha20poly1305_seal, encrypt};
use crate::crypto::curve::{x25519_diffie_hellman, x25519_public_key, x25519_shared_secret};
use crate::crypto::kdf::{derive_key, derive_key_spec};
use crate::crypto::keypair::StaticKeypair;
use crate::dht::node::{DhtPublicKey, NodeInfo};
use crate::onion::error::OnionError;
use crate::onion::path::OnionTunnel;
use crate::onion::wire::{command_wire, encode_command, encode_packet, packet_wire};
use crate::wire::{bytes_wire, node_wire, socket_wire, tag_wire};
use crate::random::fill_random;

verus! {

/// One layer of an onion: the sender's ephemeral key for this hop, the
/// AEAD nonce and the sealed command.
#[derive(Debug)]
pub struct OnionPacket {
    pub ephemeral_pk: [u8; 32],
    pub nonce: [u8; 12],
    pub payload: Vec<u8>,
}

/// Instructions embedded inside the decrypted onion layer.
#[derive(Debug)]
pub enum OnionCommand {
    /// Instructs the current node to forward the nested packet to the next hop
    Forward { next_hop: NodeInfo, packet: OnionPacket },
    /// The final layer containing the actual message for the destination
    Deliver { final_payload: Vec<u8> },
}

/// The context string of the onion-layer key derivation.
pub open spec fn onion_context() -> Seq<u8> {
    "zero-onion-v1"@.map_values(|c: char| c as u8)
}

/// The key of the layer between a local X25519 secret and a remote public key.
pub open spec fn hop_key(local_private: Seq<u8>, remote: Seq<u8>) -> Seq<u8> {
    derive_key_spec(x25519_shared_secret(local_private, remote), onion_context(), seq![0u8; 32])
}

/// The bytes of a packet with the given ephemeral key, nonce and sealed payload.
pub open spec fn layer_wire(ephemeral_pk: Seq<u8>, nonce: Seq<u8>, sealed: Seq<u8>) -> Seq<u8> {
    ephemeral_pk + nonce + bytes_wire(sealed)
}

/// The bytes of a command forwarding a packet (given by its bytes) to `next_hop`.
pub open spec fn forward_wire(next_hop: NodeInfo, packet: Seq<u8>) -> Seq<u8> {
    tag_wire(0) + node_wire(next_hop) + packet
}

/// The bytes of a command delivering `payload`.
pub open spec fn deliver_wire(payload: Seq<u8>) -> Seq<u8> {
    tag_wire(1) + bytes_wire(payload)
}

/// Seals a command's bytes for one hop.
pub open spec fn sealed_layer(key: Seq<u8>, nonce: Seq<u8>, command: Seq<u8>) -> Seq<u8> {
    chacha20poly1305_seal(key, nonce, command, Seq::<u8>::empty())
}

/// The innermost layer, for the third hop.
pub open spec fn onion_layer3(payload: Seq<u8>, path: OnionTunnel, n3: Seq<u8>) -> Seq<u8> {
    let k3 = hop_key(path.hop3_key.private@, path.hop3.dht_pk.0@);
    layer_wire(path.hop3_key.public@, n3, sealed_layer(k3, n3, deliver_wire(payload)))
}

/// The middle layer, for the second hop.
pub open spec fn onion_layer2(payload: Seq<u8>, path: OnionTunnel, n2: Seq<u8>, n3: Seq<u8>) -> Seq<u8> {
    let k2 = hop_key(path.hop2_key.private@, path.hop2.dht_pk.0@);
    layer_wire(path.hop2_key.public@, n2, sealed_layer(k2, n2, forward_wire(path.hop3, onion_layer3(payload, path, n3))))
}

/// The outermost layer, for the first hop: the wrapped onion.
pub open spec fn onion_layer1(payload: Seq<u8>, path: OnionTunnel, n1: Seq<u8>, n2: Seq<u8>, n3: Seq<u8>) -> Seq<u8> {
    let k1 = hop_key(path.hop1_key.private@, path.hop1.dht_pk.0@);
    layer_wire(path.hop1_key.public@, n1, sealed_layer(k1, n1, forward_wire(path.hop2, onion_layer2(payload, path, n2, n3))))
}

/// Each layer of the onion opens, under the key it was sealed with, to the
/// command sealed in it.
pub open spec fn onion_layers_open(payload: Seq<u8>, path: OnionTunnel, n1: Seq<u8>, n2: Seq<u8>, n3: Seq<u8>) -> bool {
    let k1 = hop_key(path.hop1_key.private@, path.hop1.dht_pk.0@);
    let k2 = hop_key(path.hop2_key.private@, path.hop2.dht_pk.0@);
    let k3 = hop_key(path.hop3_key.private@, path.hop3.dht_pk.0@);
    let c1 = forward_wire(path.hop2, onion_layer2(payload, path, n2, n3));
    let c2 = forward_wire(path.hop3, onion_layer3(payload, path, n3));
    let c3 = deliver_wire(payload);
    &&& chacha20poly1305_open(k1, n1, sealed_layer(k1, n1, c1), Seq::<u8>::empty()) == Some(c1)
    &&& chacha20poly1305_open(k2, n2, sealed_layer(k2, n2, c2), Seq::<u8>::empty()) == Some(c2)
    &&& chacha20poly1305_open(k3, n3, sealed_layer(k3, n3, c3), Seq::<u8>::empty()) == Some(c3)
}

/// The length of a node's bytes.
pub open spec fn node_wire_len(n: NodeInfo) -> nat {
    if n.addr.ip is V4 { 44 } else { 56 }
}

/// The lengths of the three command plaintexts, innermost first.
pub open spec fn onion_plaintext_lens(payload_len: nat, path: OnionTunnel) -> (nat, nat, nat) {
    let len3 = 12 + payload_len;
    let len2 = 4 + node_wire_len(path.hop3) + 52 + len3 + 16;
    let len1 = 4 + node_wire_len(path.hop2) + 52 + len2 + 16;
    (len3, len2, len1)
}

/// Every layer of an onion of this payload length is within the AEAD's limit.
pub open spec fn onion_fits(payload_len: nat, path: OnionTunnel) -> bool {
    let lens = onion_plaintext_lens(payload_len, path);
    &&& aead_len_ok(lens.0)
    &&& aead_len_ok(lens.1)
    &&& aead_len_ok(lens.2)
}

pub(crate) fn onion_context_bytes() -> (v: Vec<u8>)
    ensures
        v@ == onion_context(),
{
    let v: Vec<u8> = vec![0x7a, 0x65, 0x72, 0x6f, 0x2d, 0x6f, 0x6e, 0x69, 0x6f, 0x6e, 0x2d, 0x76, 0x31];
    proof {
        reveal_strlit("zero-onion-v1");
        assert(v@ =~= onion_context());
    }
    v
}

/// The layer key between our ephemeral key and a hop's DHT key.
fn derive_onion_key(local_ephemeral: &StaticKeypair, remote_pk: &DhtPublicKey) -> (key: [u8; 32])
    ensures
        key@ == hop_key(local_ephemeral.private@, remote_pk.0@),
{
    let shared = x25519_diffie_hellman(&local_ephemeral.private, &remote_pk.0);
    let ctx = onion_context_bytes();
    let zero_salt = [0u8; 32];
    assert(zero_salt@ =~= seq![0u8; 32]);
    derive_key(&shared, ctx.as_slice(), &zero_salt)
}

/// Seals a command for one hop and frames it as a packet.
fn seal_layer(key: &[u8; 32], nonce: [u8; 12], ephemeral_pk: [u8; 32], command: &OnionCommand) -> (r: Result<OnionPacket, OnionError>)
    ensures
        r is Ok <==> aead_len_ok(command_wire(*command).len()),
        r matches Ok(p) ==> p.ephemeral_pk == ephemeral_pk && p.nonce == nonce
            && p.payload@ == sealed_layer(key@, nonce@, command_wire(*command))
            && p.payload@.len() == command_wire(*command).len() + 16
            && chacha20poly1305_open(key@, nonce@, p.payload@, Seq::<u8>::empty()) == Some(command_wire(*command)),
        r matches Err(e) ==> e matches OnionError::Crypto(_),
{
    let plain = encode_command(command);
    let empty: [u8; 0] = [];
    assert(empty@ =~= Seq::<u8>::empty());
    match encrypt(key, &nonce, plain.as_slice(), &empty) {
        Ok(c) => Ok(OnionPacket { ephemeral_pk, nonce, payload: c }),
        Err(e) => Err(OnionError::Crypto(e)),
    }
}

proof fn lemma_layer_bytes(p: OnionPacket)
    ensures
        packet_wire(p) == layer_wire(p.ephemeral_pk@, p.nonce@, p.payload@),
{
}

proof fn lemma_forward_bytes(h: NodeInfo, p: OnionPacket)
    ensures
        command_wire(OnionCommand::Forward { next_hop: h, packet: p }) == forward_wire(h, packet_wire(p)),
        command_wire(OnionCommand::Forward { next_hop: h, packet: p }).len() == 4 + node_wire_len(h) + packet_wire(p).len(),
{
    assert(command_wire(OnionCommand::Forward { next_hop: h, packet: p }) =~= forward_wire(h, packet_wire(p)));
}

/// Wraps a payload in three layers with the given nonces: layer 3
/// (innermost) tells the third hop to deliver the payload, layer 2 tells
/// the second hop to forward layer 3 to the third, layer 1 (outermost)
/// tells the first hop to forward layer 2 to the second.
pub fn wrap_onion_with(payload: &[u8], path: &OnionTunnel, n1: [u8; 12], n2: [u8; 12], n3: [u8; 12]) -> (r: Result<Vec<u8>, OnionError>)
    ensures
        r is Ok <==> onion_fits(payload@.len(), *path),
        r matches Ok(bytes) ==> bytes@ == onion_layer1(payload@, *path, n1@, n2@, n3@)
            && onion_layers_open(payload@, *path, n1@, n2@, n3@),
        r matches Err(e) ==> e matches OnionError::Crypto(_),
{
    let ghost lens = onion_plaintext_lens(payload@.len(), *path);
    proof {
        assert(node_wire(path.hop3).len() == node_wire_len(path.hop3)) by {
            assert(node_wire(path.hop3) =~= path.hop3.dht_pk.0@ + socket_wire(path.hop3.addr)
                + seq![path.hop3.reputation as u8, path.hop3.consecutive_failures]);
        }
        assert(node_wire(path.hop2).len() == node_wire_len(path.hop2));
    }
    let l3_key = derive_onion_key(&path.hop3_key, &path.hop3.dht_pk);
    let l3_cmd = OnionCommand::Deliver { final_payload: crate::bytes::bytes_to_vec(payload) };
    assert(command_wire(l3_cmd) =~= deliver_wire(payload@));
    let l3_packet = seal_layer(&l3_key, n3, path.hop3_key.public, &l3_cmd)?;
    proof {
        lemma_layer_bytes(l3_packet);
        assert(packet_wire(l3_packet) == onion_layer3(payload@, *path, n3@));
    }
    let l2_key = derive_onion_key(&path.hop2_key, &path.hop2.dht_pk);
    let l2_cmd = OnionCommand::Forward { next_hop: path.hop3, packet: l3_packet };
    proof {
        lemma_forward_bytes(path.hop3, l3_packet);
    }
    let l2_packet = seal_layer(&l2_key, n2, path.hop2_key.public, &l2_cmd)?;
    proof {
        lemma_layer_bytes(l2_packet);
        assert(packet_wire(l2_packet) == onion_layer2(payload@, *path, n2@, n3@));
    }
    let l1_key = derive_onion_key(&path.hop1_key, &path.hop1.dht_pk);
    let l1_cmd = OnionCommand::Forward { next_hop: path.hop2, packet: l2_packet };
    proof {
        lemma_forward_bytes(path.hop2, l2_packet);
    }
    let l1_packet = seal_layer(&l1_key, n1, path.hop1_key.public, &l1_cmd)?;
    proof {
        lemma_layer_bytes(l1_packet);
    }
    Ok(encode_packet(&l1_packet))
}

/// Wraps a payload in three layers of encryption with fresh random nonces.
pub fn wrap_onion(payload: &[u8], path: &OnionTunnel) -> (r: Result<Vec<u8>, OnionError>)
    ensures
        r is Ok <==> onion_fits(payload@.len(), *path),
        r matches Ok(bytes) ==> exists|n1: Seq<u8>, n2: Seq<u8>, n3: Seq<u8>|
            n1.len() == 12 && n2.len() == 12 && n3.len() == 12 && bytes@ == #[trigger] onion_layer1(payload@, *path, n1, n2, n3)
                && onion_layers_open(payload@, *path, n1, n2, n3),
        r matches Err(e) ==> e matches OnionError::Crypto(_),
{
    let mut n1 = [0u8; 12];
    let mut n2 = [0u8; 12];
    let mut n3 = [0u8; 12];
    fill_random(&mut n3);
    fill_random(&mut n2);
    fill_random(&mut n1);
    wrap_onion_with(payload, path, n1, n2, n3)
}

} // verus!
