use zero_protocol::crypto::keypair::StaticKeypair;
use zero_protocol::dht::node::{DhtPublicKey, IpAddress, NodeInfo, SocketAddress};
use zero_protocol::onion::announce::{announce_key_for_day, generate_announce_key};
use zero_protocol::onion::error::OnionError;
use zero_protocol::onion::forward::peel_and_forward;
use zero_protocol::onion::packet::{wrap_onion, wrap_onion_with, OnionCommand, OnionPacket};
use zero_protocol::onion::path::{OnionTunnel, TunnelDirection};
use zero_protocol::onion::wire::{decode_command, encode_command, encode_packet, read_packet};

fn hop(kp: &StaticKeypair, last: u8) -> NodeInfo {
    NodeInfo::new(DhtPublicKey(kp.public), SocketAddress { ip: IpAddress::V4([10, last, 0, 1]), port: 1000 + last as u16 })
}

fn parse(bytes: &[u8]) -> OnionPacket {
    let (p, end) = read_packet(bytes, 0).unwrap();
    assert_eq!(end, bytes.len());
    p
}

#[test]
fn test_announce_key_deterministic() {
    let identity = StaticKeypair::generate();
    let key1 = generate_announce_key(&identity);
    let key2 = generate_announce_key(&identity);
    // Within the same day, should produce identical announce keys.
    assert_eq!(key1, key2);
}

#[test]
fn test_announce_key_unique_per_identity() {
    let id1 = StaticKeypair::generate();
    let id2 = StaticKeypair::generate();
    let key1 = generate_announce_key(&id1);
    let key2 = generate_announce_key(&id2);
    // Two different identities must produce different announce keys.
    assert_ne!(key1, key2);
}

#[test]
fn announce_key_rotates_daily() {
    let id = StaticKeypair::from_bytes([3u8; 32]);
    assert_eq!(announce_key_for_day(&id, 19_000), announce_key_for_day(&id, 19_000));
    assert_ne!(announce_key_for_day(&id, 19_000), announce_key_for_day(&id, 19_001));
}

#[test]
fn three_layers_peel_in_order() {
    let k1 = StaticKeypair::from_bytes([1u8; 32]);
    let k2 = StaticKeypair::from_bytes([2u8; 32]);
    let k3 = StaticKeypair::from_bytes([3u8; 32]);
    let (h1, h2, h3) = (hop(&k1, 1), hop(&k2, 2), hop(&k3, 3));
    let tunnel = OnionTunnel::new(TunnelDirection::Outbound, h1, h2, h3);
    let payload = b"the message".to_vec();
    let onion = wrap_onion(&payload, &tunnel).unwrap();

    let p1 = parse(&onion);
    let p2 = match peel_and_forward(&p1, &k1).unwrap() {
        OnionCommand::Forward { next_hop, packet } => {
            assert_eq!(next_hop.dht_pk, h2.dht_pk);
            assert_eq!(next_hop.addr, h2.addr);
            packet
        },
        OnionCommand::Deliver { .. } => panic!("first hop must forward"),
    };
    let p3 = match peel_and_forward(&p2, &k2).unwrap() {
        OnionCommand::Forward { next_hop, packet } => {
            assert_eq!(next_hop.dht_pk, h3.dht_pk);
            packet
        },
        OnionCommand::Deliver { .. } => panic!("second hop must forward"),
    };
    match peel_and_forward(&p3, &k3).unwrap() {
        OnionCommand::Deliver { final_payload } => assert_eq!(final_payload, payload),
        OnionCommand::Forward { .. } => panic!("third hop must deliver"),
    }

    // Layers cannot be opened by the wrong hop or out of order.
    assert!(matches!(peel_and_forward(&p1, &k2), Err(OnionError::Crypto(_))));
    assert!(matches!(peel_and_forward(&p2, &k3), Err(OnionError::Crypto(_))));
}

#[test]
fn wrapping_with_fixed_nonces_is_deterministic() {
    let k = StaticKeypair::from_bytes([1u8; 32]);
    let tunnel = OnionTunnel::new(TunnelDirection::Inbound, hop(&k, 1), hop(&k, 2), hop(&k, 3));
    let a = wrap_onion_with(b"x", &tunnel, [1u8; 12], [2u8; 12], [3u8; 12]).unwrap();
    let b = wrap_onion_with(b"x", &tunnel, [1u8; 12], [2u8; 12], [3u8; 12]).unwrap();
    assert_eq!(a, b);
    let c = wrap_onion_with(b"x", &tunnel, [9u8; 12], [2u8; 12], [3u8; 12]).unwrap();
    assert_ne!(a, c);
}

#[test]
fn tampered_layer_is_rejected() {
    let k1 = StaticKeypair::from_bytes([1u8; 32]);
    let tunnel = OnionTunnel::new(TunnelDirection::Outbound, hop(&k1, 1), hop(&k1, 2), hop(&k1, 3));
    let onion = wrap_onion(b"abc", &tunnel).unwrap();
    let mut p = parse(&onion);
    let last = p.payload.len() - 1;
    p.payload[last] ^= 0x80;
    assert!(matches!(peel_and_forward(&p, &k1), Err(OnionError::Crypto(_))));
}

#[test]
fn command_codec_round_trips() {
    let k = StaticKeypair::from_bytes([5u8; 32]);
    let deliver = OnionCommand::Deliver { final_payload: vec![1, 2, 3] };
    match decode_command(&encode_command(&deliver)).unwrap() {
        OnionCommand::Deliver { final_payload } => assert_eq!(final_payload, vec![1, 2, 3]),
        _ => panic!("wrong variant"),
    }
    let inner = OnionPacket { ephemeral_pk: [4u8; 32], nonce: [6u8; 12], payload: vec![7u8; 20] };
    let forward = OnionCommand::Forward { next_hop: hop(&k, 9), packet: inner };
    match decode_command(&encode_command(&forward)).unwrap() {
        OnionCommand::Forward { next_hop, packet } => {
            assert_eq!(next_hop.addr, hop(&k, 9).addr);
            assert_eq!(packet.payload, vec![7u8; 20]);
            assert_eq!(encode_packet(&packet).len(), 32 + 12 + 8 + 20);
        },
        _ => panic!("wrong variant"),
    }
    assert!(decode_command(&[2, 0, 0, 0]).is_none());
    assert!(read_packet(&[0u8; 51], 0).is_none());
}

#[test]
fn tunnel_rotation_after_five_minutes() {
    let k = StaticKeypair::from_bytes([1u8; 32]);
    let t = OnionTunnel::new(TunnelDirection::Outbound, hop(&k, 1), hop(&k, 2), hop(&k, 3));
    assert!(!t.needs_rotation());
    assert!(!t.needs_rotation_at(t.created_at + 300_999));
    assert!(t.needs_rotation_at(t.created_at + 301_000));
    assert!(!t.needs_rotation_at(t.created_at.saturating_sub(1)));
}

#[test]
fn onion_error_messages() {
    assert_eq!(OnionError::PayloadTooLarge.message(), "Payload too large");
    assert_eq!(OnionError::InvalidPacket.message(), "Invalid packet format");
}
