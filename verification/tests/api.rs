use zero_protocol::api::client::{adopt_peers, choose_hops, establish_session, ClientCore, SendError};
use zero_protocol::api::hexid::{parse_peer_id, peer_id_text, PeerIdError};
use zero_protocol::crypto::keypair::StaticKeypair;
use zero_protocol::dht::node::{DhtPublicKey, IpAddress, NodeInfo, SocketAddress};
use zero_protocol::dht::routing::RoutingTable;
use zero_protocol::node::handler::NodeCore;
use zero_protocol::node::packet::{decode_packet, PacketType};
use zero_protocol::onion::forward::peel_and_forward;
use zero_protocol::onion::packet::OnionCommand;
use zero_protocol::onion::wire::read_packet;
use zero_protocol::session::friend::{decode_friend_message, encode_friend_message, FriendMessage};

fn v4(a: u8, b: u8, c: u8, d: u8) -> SocketAddress {
    SocketAddress { ip: IpAddress::V4([a, b, c, d]), port: 33445 }
}

fn node(pk: [u8; 32], last: u8) -> NodeInfo {
    NodeInfo::new(DhtPublicKey(pk), v4(10, last, 0, 1))
}

#[test]
fn zero_ids_are_lower_case_hex() {
    let pk = DhtPublicKey([0xAB; 32]);
    let text = peer_id_text(&pk);
    assert_eq!(text, "ab".repeat(32));
    assert_eq!(parse_peer_id(&text).unwrap(), pk);
    assert_eq!(parse_peer_id(&"AB".repeat(32)).unwrap(), pk);
    let mut bytes = [0u8; 32];
    bytes[0] = 0x01;
    bytes[31] = 0xf0;
    assert_eq!(peer_id_text(&DhtPublicKey(bytes)), format!("01{}f0", "00".repeat(30)));
}

#[test]
fn bad_zero_ids_are_refused() {
    assert!(matches!(parse_peer_id("zz"), Err(PeerIdError::InvalidHex(_))));
    assert!(matches!(parse_peer_id("abc"), Err(PeerIdError::InvalidHex(_))));
    assert!(matches!(parse_peer_id("ZeroIdHere"), Err(PeerIdError::InvalidHex(_))));
    assert!(matches!(parse_peer_id("abcd"), Err(PeerIdError::WrongLength)));
    assert!(matches!(parse_peer_id(""), Err(PeerIdError::WrongLength)));
    assert!(matches!(parse_peer_id(&"ab".repeat(33)), Err(PeerIdError::WrongLength)));
}

#[test]
fn friend_message_codec() {
    let m = FriendMessage { sequence_number: 0x0102, ciphertext: vec![9, 8, 7] };
    let bytes = encode_friend_message(&m);
    assert_eq!(bytes, vec![2, 1, 0, 0, 0, 0, 0, 0, 3, 0, 0, 0, 0, 0, 0, 0, 9, 8, 7]);
    let back = decode_friend_message(&bytes).unwrap();
    assert_eq!(back.sequence_number, 0x0102);
    assert_eq!(back.ciphertext, vec![9, 8, 7]);
    assert!(decode_friend_message(&bytes[..18]).is_none());
    assert!(decode_friend_message(&[1, 2, 3]).is_none());
}

#[test]
fn relays_exclude_us_and_the_friend_and_are_padded() {
    let us = DhtPublicKey([0u8; 32]);
    let friend = DhtPublicKey([1u8; 32]);
    let mut table = RoutingTable::new(us);
    table.insert(node([1u8; 32], 1));
    table.insert(node([2u8; 32], 2));
    let fallback = node([1u8; 32], 1);
    let (a, b, c) = choose_hops(&table, &us, &friend, fallback);
    assert_eq!(a.dht_pk, DhtPublicKey([2u8; 32]));
    assert_eq!(b.dht_pk, friend);
    assert_eq!(c.dht_pk, friend);

    for i in 3u8..=6 {
        table.insert(node([i; 32], i));
    }
    let (a, b, c) = choose_hops(&table, &us, &friend, fallback);
    // Ordered by distance to the friend's key, friend itself left out.
    assert_eq!(a.dht_pk, DhtPublicKey([3u8; 32]));
    assert_eq!(b.dht_pk, DhtPublicKey([2u8; 32]));
    assert_eq!(c.dht_pk, DhtPublicKey([5u8; 32]));
}

#[test]
fn lookup_results_are_adopted() {
    let mut table = RoutingTable::new(DhtPublicKey([0u8; 32]));
    assert!(!adopt_peers(&mut table, &Vec::new(), 0));
    assert!(adopt_peers(&mut table, &vec![node([4u8; 32], 4), node([5u8; 32], 5)], 7));
    let total: usize = table.buckets.iter().map(|b| b.nodes.len()).sum();
    assert_eq!(total, 2);
}

#[test]
fn session_handshake_runs_both_sides_with_our_key() {
    let me = StaticKeypair::from_bytes([1u8; 32]);
    // Both sides of the local handshake use our key, so it completes only
    // when the remote key is our own.
    let s = establish_session(&me, &DhtPublicKey(me.public)).unwrap();
    assert_eq!(s.send_counter, 0);
    assert_eq!(s.recv_counter, 0);
    assert_eq!(s.ratchet.root_key, s.ratchet.send_chain_key);
    let other = StaticKeypair::from_bytes([2u8; 32]);
    assert!(establish_session(&me, &DhtPublicKey(other.public)).is_err());
}

#[test]
fn messages_travel_in_an_onion_to_the_first_relay() {
    let me = StaticKeypair::from_bytes([1u8; 32]);
    let relay_keys: Vec<StaticKeypair> = (10u8..13).map(|i| StaticKeypair::from_bytes([i; 32])).collect();
    let friend = StaticKeypair::from_bytes([20u8; 32]);
    let friend_pk = DhtPublicKey(friend.public);

    let mut table = RoutingTable::new(DhtPublicKey(me.public));
    for (i, k) in relay_keys.iter().enumerate() {
        table.insert(NodeInfo::new(DhtPublicKey(k.public), v4(10, i as u8 + 1, 0, 1)));
    }
    let friend_node = NodeInfo::new(friend_pk, v4(10, 50, 0, 1));

    let mut client = ClientCore::new(StaticKeypair::from_bytes(me.seed));
    assert!(matches!(client.prepare_message(&table, &friend_pk, &Vec::new(), b"hi"), Err(SendError::FriendNotFound)));
    assert!(!client.has_session(&friend_pk));
    // No session yet: the local handshake cannot complete for another key.
    assert!(matches!(client.prepare_message(&table, &friend_pk, &vec![friend_node], b"hi"), Err(SendError::Noise(_))));
    assert!(!client.has_session(&friend_pk));

    // With a session in place, the message goes out.
    let session = establish_session(&me, &DhtPublicKey(me.public)).unwrap();
    client.sessions.insert(friend_pk.0, session);
    let action = client.prepare_message(&table, &friend_pk, &vec![friend_node], b"hello").unwrap();
    assert!(client.has_session(&friend_pk));
    let (t, body) = decode_packet(&action.bytes).unwrap();
    assert_eq!(t, PacketType::OnionRequest);

    // Peel the three layers with the relays' keys, in the order of the path.
    let first = relay_keys.iter().position(|k| DhtPublicKey(k.public) == action.to.dht_pk).unwrap();
    let (mut packet, _) = read_packet(body, 0).unwrap();
    let mut key = &relay_keys[first];
    let mut hops = 1;
    let delivered = loop {
        match peel_and_forward(&packet, key).unwrap() {
            OnionCommand::Forward { next_hop, packet: inner } => {
                key = relay_keys.iter().find(|k| DhtPublicKey(k.public) == next_hop.dht_pk).unwrap();
                packet = inner;
                hops += 1;
            },
            OnionCommand::Deliver { final_payload } => break final_payload,
        }
    };
    assert_eq!(hops, 3);
    let msg = decode_friend_message(&delivered).unwrap();
    assert_eq!(msg.sequence_number, 0);
    assert_eq!(msg.ciphertext.len(), 5 + 16);

    // A second message uses the next counter.
    let action2 = client.prepare_message(&table, &friend_pk, &vec![friend_node], b"again").unwrap();
    assert!(!action2.bytes.is_empty());
    assert_eq!(client.sessions.get(&friend_pk.0).unwrap().send_counter, 2);
}

#[test]
fn node_and_client_share_the_identity() {
    let kp = StaticKeypair::from_bytes([4u8; 32]);
    let core = NodeCore::new(StaticKeypair::from_bytes(kp.seed));
    assert_eq!(core.routing_table.local_key, DhtPublicKey(kp.public));
}

#[test]
fn forged_friend_message_is_rejected() {
    let me = StaticKeypair::from_bytes([1u8; 32]);
    let mut s = establish_session(&me, &DhtPublicKey(me.public)).unwrap();
    let forged = FriendMessage { sequence_number: 0, ciphertext: vec![0u8; 32] };
    let chain_before = s.ratchet.recv_chain_key;
    assert!(s.decrypt_message(&forged).is_err());
    assert_eq!(s.recv_counter, 0);
    // The receiving chain advanced all the same.
    assert_ne!(s.ratchet.recv_chain_key, chain_before);
    let sealed = s.encrypt_message(b"note").unwrap();
    assert_eq!(sealed.sequence_number, 0);
    assert_eq!(s.send_counter, 1);
}
