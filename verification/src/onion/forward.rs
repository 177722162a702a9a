use vstd::prelude::*;
use crate::crypto::aead::{chacha20poly1305_open, decrypt};
use crate::crypto::curve::{x25519_diffie_hellman, x25519_public_key, x25519_shared_secret};
use crate::crypto::kdf::{derive_key, derive_key_spec};
use crate::crypto::keypair::StaticKeypair;
use crate::onion::error::OnionError;
use crate::onion::packet::{
    deliver_wire, forward_wire, hop_key, onion_context, onion_context_bytes, onion_layer2, onion_layer3, onion_layers_open,
    sealed_layer, OnionCommand, OnionPacket,
};
use crate::onion::path::OnionTunnel;
use crate::onion::wire::{command_received, command_wire, decode_command};

verus! {

/// Peels one layer of encryption off an onion packet with the node's own
/// key and the packet's ephemeral key, and parses the routing instruction
/// inside. A layer that does not open is a crypto error; one whose bytes
/// do not begin with a command is an invalid packet.
pub fn peel_and_forward(packet: &OnionPacket, local_key: &StaticKeypair) -> (r: Result<OnionCommand, OnionError>)
    ensures
        ({
            let opened = chacha20poly1305_open(hop_key(local_key.private@, packet.ephemeral_pk@), packet.nonce@,
                packet.payload@, Seq::<u8>::empty());
            match opened {
                None => r matches Err(OnionError::Crypto(_)),
                Some(pt) => match r {
                    Ok(c) => command_wire(c).is_prefix_of(pt) && command_received(c) == c,
                    Err(e) => e is InvalidPacket && forall|c: OnionCommand| !(#[trigger] command_wire(c)).is_prefix_of(pt),
                },
            }
        }),
        r matches Ok(OnionCommand::Deliver { final_payload }) ==> final_payload@.len() < packet.payload@.len(),
        forall|other: Seq<u8>| other.len() == 32 && #[trigger] x25519_public_key(other) == packet.ephemeral_pk@
            ==> x25519_shared_secret(local_key.private@, packet.ephemeral_pk@)
                == x25519_shared_secret(other, x25519_public_key(local_key.private@)),
{
    let shared = x25519_diffie_hellman(&local_key.private, &packet.ephemeral_pk);
    let ctx = onion_context_bytes();
    let zero_salt = [0u8; 32];
    assert(zero_salt@ =~= seq![0u8; 32]);
    let key = derive_key(&shared, ctx.as_slice(), &zero_salt);
    let empty: [u8; 0] = [];
    assert(empty@ =~= Seq::<u8>::empty());
    let decrypted = match decrypt(&key, &packet.nonce, packet.payload.as_slice(), &empty) {
        Ok(p) => p,
        Err(e) => {
            return Err(OnionError::Crypto(e));
        },
    };
    match decode_command(decrypted.as_slice()) {
        Some(c) => {
            proof {
                if let OnionCommand::Deliver { final_payload } = &c {
                    assert(command_wire(c) =~= crate::wire::tag_wire(1) + crate::wire::bytes_wire(final_payload@));
                }
            }
            Ok(c)
        },
        None => Err(OnionError::InvalidPacket),
    }
}

/// The key a hop derives from its own secret and a layer's ephemeral public
/// key is the key the sender derived from the ephemeral secret and the
/// hop's public key, given that the two X25519 computations agree (as
/// `peel_and_forward` reports for the packet it peels).
pub proof fn lemma_hop_key_agrees(hop: StaticKeypair, ephemeral: StaticKeypair)
    requires
        hop.wf(),
        ephemeral.wf(),
        x25519_shared_secret(hop.private@, ephemeral.public@)
            == x25519_shared_secret(ephemeral.private@, x25519_public_key(hop.private@)),
    ensures
        hop_key(hop.private@, ephemeral.public@) == hop_key(ephemeral.private@, hop.public@),
{
}

/// Onion routing delivers: when each hop holds the key its node announces
/// and the key exchanges agree, the first hop opens its layer to the
/// command forwarding layer 2 to the second hop, the second opens it to the
/// command forwarding layer 3 to the third, and the third opens layer 3 to
/// the command delivering the payload.
pub proof fn lemma_onion_peels_in_order(
    payload: Seq<u8>,
    path: OnionTunnel,
    n1: Seq<u8>,
    n2: Seq<u8>,
    n3: Seq<u8>,
    k1: StaticKeypair,
    k2: StaticKeypair,
    k3: StaticKeypair,
)
    requires
        path.wf(),
        onion_layers_open(payload, path, n1, n2, n3),
        k1.wf() && k1.public@ == path.hop1.dht_pk.0@,
        k2.wf() && k2.public@ == path.hop2.dht_pk.0@,
        k3.wf() && k3.public@ == path.hop3.dht_pk.0@,
        x25519_shared_secret(k1.private@, path.hop1_key.public@)
            == x25519_shared_secret(path.hop1_key.private@, x25519_public_key(k1.private@)),
        x25519_shared_secret(k2.private@, path.hop2_key.public@)
            == x25519_shared_secret(path.hop2_key.private@, x25519_public_key(k2.private@)),
        x25519_shared_secret(k3.private@, path.hop3_key.public@)
            == x25519_shared_secret(path.hop3_key.private@, x25519_public_key(k3.private@)),
    ensures
        ({
            let s1 = sealed_layer(hop_key(path.hop1_key.private@, path.hop1.dht_pk.0@), n1,
                forward_wire(path.hop2, onion_layer2(payload, path, n2, n3)));
            let s2 = sealed_layer(hop_key(path.hop2_key.private@, path.hop2.dht_pk.0@), n2,
                forward_wire(path.hop3, onion_layer3(payload, path, n3)));
            let s3 = sealed_layer(hop_key(path.hop3_key.private@, path.hop3.dht_pk.0@), n3, deliver_wire(payload));
            &&& chacha20poly1305_open(hop_key(k1.private@, path.hop1_key.public@), n1, s1, Seq::<u8>::empty())
                == Some(forward_wire(path.hop2, onion_layer2(payload, path, n2, n3)))
            &&& chacha20poly1305_open(hop_key(k2.private@, path.hop2_key.public@), n2, s2, Seq::<u8>::empty())
                == Some(forward_wire(path.hop3, onion_layer3(payload, path, n3)))
            &&& chacha20poly1305_open(hop_key(k3.private@, path.hop3_key.public@), n3, s3, Seq::<u8>::empty())
                == Some(deliver_wire(payload))
        }),
{
    lemma_hop_key_agrees(k1, path.hop1_key);
    lemma_hop_key_agrees(k2, path.hop2_key);
    lemma_hop_key_agrees(k3, path.hop3_key);
}

} // verus!
