use zero_protocol::crypto::aead::decrypt;
use zero_protocol::crypto::kdf::derive_key;
use zero_protocol::crypto::keypair::StaticKeypair;
use zero_protocol::dht::node::{DhtPublicKey, IpAddress, NodeInfo, SocketAddress};
use zero_protocol::net::error::NetError;
use zero_protocol::net::lan::{lan_announcement, lan_announcement_with};
use zero_protocol::net::tcp::TcpRelayManager;
use zero_protocol::net::transport::{best_transport_for, tor_frame, TransportType};
use zero_protocol::node::error::CoreError;
use zero_protocol::push::wake_reply;

fn target(ip: IpAddress) -> NodeInfo {
    NodeInfo::new(DhtPublicKey([1u8; 32]), SocketAddress { ip, port: 9 })
}

#[test]
fn transport_choice() {
    let lo = target(IpAddress::V4([127, 0, 0, 1]));
    assert_eq!(best_transport_for(&lo, true, true), TransportType::Udp);
    let lo6 = target(IpAddress::V6([0, 0, 0, 0, 0, 0, 0, 1]));
    assert_eq!(best_transport_for(&lo6, true, false), TransportType::Udp);
    let remote = target(IpAddress::V4([8, 8, 8, 8]));
    assert_eq!(best_transport_for(&remote, true, true), TransportType::Quic);
    assert_eq!(best_transport_for(&remote, false, true), TransportType::TcpRelay(remote.addr));
    assert_eq!(best_transport_for(&remote, false, false), TransportType::Udp);
}

#[test]
fn tor_frames_carry_a_big_endian_length() {
    let f = tor_frame(&[7u8; 300]);
    assert_eq!(&f[..4], &[0, 0, 1, 44]);
    assert_eq!(f.len(), 304);
    assert_eq!(tor_frame(&[]), vec![0, 0, 0, 0]);
}

#[test]
fn lan_announcements_open_with_the_lan_key() {
    let kp = StaticKeypair::from_bytes([3u8; 32]);
    let packet = lan_announcement_with(&kp, [5u8; 12]);
    assert_eq!(&packet[..4], b"ZLAN");
    assert_eq!(&packet[4..16], &[5u8; 12]);
    let mut secret = [0u8; 32];
    secret[..31].copy_from_slice(b"zero-lan-shared-salt-derivation");
    let key = derive_key(&secret, b"zero-lan-encryption", &[0u8; 32]);
    let claim = decrypt(&key, &[5u8; 12], &packet[16..], &[]).unwrap();
    assert_eq!(claim.len(), 96);
    let vk = ed25519_dalek::VerifyingKey::from_bytes(claim[..32].try_into().unwrap()).unwrap();
    let sig = ed25519_dalek::Signature::from_bytes(claim[32..].try_into().unwrap());
    assert!(vk.verify_strict(&kp.public, &sig).is_ok());
    let fresh = lan_announcement(&kp);
    assert_eq!(fresh.len(), packet.len());
}

#[test]
fn relay_transport_is_unavailable() {
    let relay = TcpRelayManager::new();
    let r = relay.send_relayed_packet(SocketAddress { ip: IpAddress::V4([1, 1, 1, 1]), port: 1 }, b"x");
    assert!(matches!(r, Err(NetError::TransportUnavailable)));
    assert_eq!(NetError::TransportUnavailable.message(), "Transport not available");
    assert_eq!(CoreError::from(NetError::TransportUnavailable).message(), "Net Error");
}

#[test]
fn wake_replies() {
    let (code, body) = wake_reply(true);
    assert_eq!(code, 200);
    assert_eq!(body.status, "dispatched");
    let (code, body) = wake_reply(false);
    assert_eq!(code, 500);
    assert_eq!(body.status, "failed");
}
