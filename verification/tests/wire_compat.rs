//! The library's byte formats agree with bincode's encoding of the same
//! values, field by field.
use zero_protocol::dht::node::{DhtPublicKey, IpAddress, LeaseSet, NodeInfo, SocketAddress};
use zero_protocol::dht::packet::{DhtPacket, DhtPayload};
use zero_protocol::dht::wire::{encode_dht_packet, encode_payload};
use zero_protocol::offload::blob::{IdentityPublicKey, OfflineBlob};
use zero_protocol::offload::wire::{encode_blobs, encode_store_request};
use zero_protocol::onion::packet::{OnionCommand, OnionPacket};
use zero_protocol::onion::wire::{encode_command, encode_packet};
use zero_protocol::session::friend::{encode_friend_message, FriendMessage};

/// A node as serde writes it: key, socket address (variant index, address
/// octets, port), reputation, failures.
type NodeV4 = ([u8; 32], (u32, [u8; 4], u16), i8, u8);
type NodeV6 = ([u8; 32], (u32, [u8; 16], u16), i8, u8);

fn node_v4() -> (NodeInfo, NodeV4) {
    let mut n = NodeInfo::new(DhtPublicKey([3u8; 32]), SocketAddress { ip: IpAddress::V4([10, 1, 2, 3]), port: 33445 });
    n.reputation = -7;
    n.consecutive_failures = 2;
    (n, ([3u8; 32], (0, [10, 1, 2, 3], 33445), -7, 2))
}

fn node_v6() -> (NodeInfo, NodeV6) {
    let n = NodeInfo::new(
        DhtPublicKey([4u8; 32]),
        SocketAddress { ip: IpAddress::V6([0x2001, 0xdb8, 0, 0, 0, 0, 0x1234, 0xabcd]), port: 443 },
    );
    let octets = [0x20, 0x01, 0x0d, 0xb8, 0, 0, 0, 0, 0, 0, 0, 0, 0x12, 0x34, 0xab, 0xcd];
    (n, ([4u8; 32], (1, octets, 443), 0, 0))
}

#[test]
fn friend_message_matches_bincode() {
    let m = FriendMessage { sequence_number: 77, ciphertext: vec![1, 2, 3, 4] };
    assert_eq!(encode_friend_message(&m), bincode::serialize(&(77u64, vec![1u8, 2, 3, 4])).unwrap());
}

#[test]
fn dht_packet_matches_bincode() {
    let p = DhtPacket { sender_pk: DhtPublicKey([1u8; 32]), nonce: [2u8; 24], request_id: [3u8; 8], encrypted_payload: vec![9, 9] };
    let expected = bincode::serialize(&([1u8; 32], [2u8; 24], [3u8; 8], vec![9u8, 9])).unwrap();
    assert_eq!(encode_dht_packet(&p), expected);
}

#[test]
fn dht_payloads_match_bincode() {
    assert_eq!(encode_payload(&DhtPayload::PingRequest), bincode::serialize(&0u32).unwrap());
    assert_eq!(encode_payload(&DhtPayload::PingResponse), bincode::serialize(&1u32).unwrap());
    assert_eq!(
        encode_payload(&DhtPayload::FindNodeRequest { target_pk: DhtPublicKey([5u8; 32]) }),
        bincode::serialize(&(2u32, [5u8; 32])).unwrap()
    );
    let (a, at) = node_v4();
    let (b, bt) = node_v6();
    // A vector is its length, then its elements.
    let mut expected = bincode::serialize(&(3u32, 2u64)).unwrap();
    expected.extend(bincode::serialize(&at).unwrap());
    expected.extend(bincode::serialize(&bt).unwrap());
    assert_eq!(encode_payload(&DhtPayload::FindNodeResponse { nodes: vec![a, b] }), expected);
    assert_eq!(
        encode_payload(&DhtPayload::AnnouncePeer { announce_key: DhtPublicKey([6u8; 32]) }),
        bincode::serialize(&(4u32, [6u8; 32])).unwrap()
    );
    let lease = LeaseSet { dht_pk: DhtPublicKey([8u8; 32]), gateways: vec![a], expiration: 99 };
    assert_eq!(
        encode_payload(&DhtPayload::StoreLeaseRequest { lease: lease.clone() }),
        bincode::serialize(&(5u32, ([8u8; 32], vec![at], 99u64))).unwrap()
    );
    assert_eq!(
        encode_payload(&DhtPayload::GetLeaseResponse { lease: Some(lease) }),
        bincode::serialize(&(7u32, Some(([8u8; 32], vec![at], 99u64)))).unwrap()
    );
}

#[test]
fn onion_formats_match_bincode() {
    let inner = OnionPacket { ephemeral_pk: [1u8; 32], nonce: [2u8; 12], payload: vec![3, 4, 5] };
    let inner_t = ([1u8; 32], [2u8; 12], vec![3u8, 4, 5]);
    assert_eq!(encode_packet(&inner), bincode::serialize(&inner_t).unwrap());
    let (n, nt) = node_v4();
    assert_eq!(
        encode_command(&OnionCommand::Forward { next_hop: n, packet: inner }),
        bincode::serialize(&(0u32, nt, inner_t)).unwrap()
    );
    assert_eq!(
        encode_command(&OnionCommand::Deliver { final_payload: vec![7, 7] }),
        bincode::serialize(&(1u32, vec![7u8, 7])).unwrap()
    );
}

#[test]
fn offline_blobs_match_bincode() {
    let b = OfflineBlob {
        nonce: [1u8; 12],
        ciphertext: vec![2, 2],
        sender_sig: vec![3u8; 64],
        sender_pk: IdentityPublicKey([4u8; 32]),
        sender_dht_pk: IdentityPublicKey([5u8; 32]),
        expires_at: 123,
        pow_token: [6u8; 32],
        pow_nonce: 456,
    };
    let t = ([1u8; 12], vec![2u8, 2], vec![3u8; 64], [4u8; 32], [5u8; 32], 123u64, [6u8; 32], 456u64);
    assert_eq!(encode_store_request(&[9u8; 32], &b), bincode::serialize(&([9u8; 32], t.clone())).unwrap());
    assert_eq!(encode_blobs(&vec![b]), bincode::serialize(&vec![t]).unwrap());
}
