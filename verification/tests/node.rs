use zero_protocol::crypto::keypair::StaticKeypair;
use zero_protocol::dht::node::{DhtPublicKey, IpAddress, LeaseSet, NodeInfo, SocketAddress};
use zero_protocol::dht::packet::DhtPayload;
use zero_protocol::dht::routing::RoutingTable;
use zero_protocol::dht::wire::{decode_dht_packet, decode_payload};
use zero_protocol::node::handler::{NodeAction, NodeCore};
use zero_protocol::node::lease::{select_gateways, top_by_reputation};
use zero_protocol::node::lookup::{dht_request, lookup_candidates, DhtLookup, LookupStep};
use zero_protocol::node::packet::{decode_packet, encode_packet, PacketType};
use zero_protocol::node::padding::pad_to_boundary;
use zero_protocol::node::rate::RateLimiter;
use zero_protocol::offload::blob::{IdentityPublicKey, OfflineBlob};
use zero_protocol::offload::client::OffloadClient;
use zero_protocol::offload::wire::{encode_blobs, encode_store_request};
use zero_protocol::onion::path::{OnionTunnel, TunnelDirection};
use zero_protocol::onion::packet::wrap_onion;

fn v4(a: u8, b: u8, c: u8, d: u8) -> SocketAddress {
    SocketAddress { ip: IpAddress::V4([a, b, c, d]), port: 33445 }
}

fn node(pk: [u8; 32], addr: SocketAddress) -> NodeInfo {
    NodeInfo::new(DhtPublicKey(pk), addr)
}

/// The DHT payload that a framed reply carries.
fn reply_payload(a: &NodeAction) -> DhtPayload {
    let (t, body) = decode_packet(&a.bytes).unwrap();
    assert_eq!(t, PacketType::FindNodeResponse);
    let dp = decode_dht_packet(body).unwrap();
    decode_payload(&dp.encrypted_payload).unwrap()
}

#[test]
fn test_padding() {
    let mut data = vec![1, 2, 3]; // 3 bytes
    pad_to_boundary(&mut data, 64);
    assert_eq!(data.len(), 64);

    let mut data2 = vec![0; 64];
    pad_to_boundary(&mut data2, 64);
    assert_eq!(data2.len(), 64); // No padding needed if already on boundary
}

#[test]
fn padding_appends_zeros() {
    let mut data = vec![9u8; 5];
    pad_to_boundary(&mut data, 8);
    assert_eq!(data, vec![9, 9, 9, 9, 9, 0, 0, 0]);
    let mut empty: Vec<u8> = Vec::new();
    pad_to_boundary(&mut empty, 16);
    assert!(empty.is_empty());
}

#[test]
fn packet_framing_round_trip() {
    for len in [0usize, 1, 61, 200, 2044, 2045, 2046, 5000] {
        let payload: Vec<u8> = (0..len).map(|i| i as u8).collect();
        let framed = encode_packet(PacketType::SessionMessage, &payload);
        assert_eq!(framed.len() % 2048, 0);
        if len <= 2045 {
            assert_eq!(framed.len(), 2048);
        }
        assert_eq!(framed[0], 0x08);
        let (t, body) = decode_packet(&framed).unwrap();
        assert_eq!(t, PacketType::SessionMessage);
        assert_eq!(body, payload.as_slice());
    }
}

#[test]
fn packet_decoding_errors() {
    assert_eq!(decode_packet(&[1]).unwrap_err(), "Packet too small (no header)");
    assert_eq!(decode_packet(&[1, 0]).unwrap_err(), "Packet too small (no header)");
    assert_eq!(decode_packet(&[0x42, 0, 0]).unwrap_err(), "Unknown packet type");
    assert_eq!(decode_packet(&[0xFF, 0, 0]).unwrap_err(), "Unknown packet type");
    assert_eq!(decode_packet(&[1, 0, 5, 0, 0]).unwrap_err(), "Packet too small for claimed padding length");
    assert_eq!(decode_packet(&[1, 1, 0, 0, 0]).unwrap_err(), "Packet too small for claimed padding length");
    let (t, body) = decode_packet(&[1, 0, 2, 0, 0]).unwrap();
    assert_eq!(t, PacketType::Ping);
    assert!(body.is_empty());
    assert_eq!(PacketType::from(7u8), PacketType::OffloadRetrieve);
    assert_eq!(PacketType::OffloadRetrieve.to_byte(), 7);
}

#[test]
fn rate_limiter_allows_one_hundred_per_second() {
    let mut r = RateLimiter::new();
    let ip = IpAddress::V4([1, 2, 3, 4]);
    for _ in 0..100 {
        assert!(r.check(&ip, 5_000));
    }
    assert!(!r.check(&ip, 5_999));
    // Another address has its own window.
    assert!(r.check(&IpAddress::V4([1, 2, 3, 5]), 5_999));
    // A new window starts a second later.
    assert!(r.check(&ip, 6_000));
}

#[test]
fn find_node_request_is_answered_with_closest_nodes() {
    let mut core = NodeCore::new(StaticKeypair::from_bytes([1u8; 32]));
    let peer = DhtPublicKey([7u8; 32]);
    let req = dht_request(peer, &DhtPayload::FindNodeRequest { target_pk: peer }).unwrap();
    let actions = core.handle_packet(v4(10, 0, 0, 7), &req, 1_000);
    assert_eq!(actions.len(), 1);
    assert_eq!(actions[0].to.dht_pk, peer);
    assert_eq!(actions[0].to.addr, v4(10, 0, 0, 7));
    match reply_payload(&actions[0]) {
        DhtPayload::FindNodeResponse { nodes } => {
            // The sender was learned first, so it is the closest node to itself.
            assert_eq!(nodes.len(), 1);
            assert_eq!(nodes[0].dht_pk, peer);
        },
        _ => panic!("expected a FindNodeResponse"),
    }
}

#[test]
fn flood_from_one_address_is_dropped() {
    let mut core = NodeCore::new(StaticKeypair::from_bytes([1u8; 32]));
    let peer = DhtPublicKey([7u8; 32]);
    let req = dht_request(peer, &DhtPayload::FindNodeRequest { target_pk: peer }).unwrap();
    for _ in 0..100 {
        assert_eq!(core.handle_packet(v4(10, 0, 0, 7), &req, 1_000).len(), 1);
    }
    assert!(core.handle_packet(v4(10, 0, 0, 7), &req, 1_500).is_empty());
    assert_eq!(core.handle_packet(v4(10, 0, 0, 7), &req, 2_000).len(), 1);
}

#[test]
fn garbage_packets_produce_nothing() {
    let mut core = NodeCore::new(StaticKeypair::from_bytes([1u8; 32]));
    assert!(core.handle_packet(v4(1, 1, 1, 1), &[], 0).is_empty());
    assert!(core.handle_packet(v4(1, 1, 1, 1), &encode_packet(PacketType::FindNode, &[1, 2, 3]), 0).is_empty());
    assert!(core.handle_packet(v4(1, 1, 1, 1), &encode_packet(PacketType::OnionRequest, &[0u8; 60]), 0).is_empty());
    assert!(core.handle_packet(v4(1, 1, 1, 1), &encode_packet(PacketType::Ping, &[]), 0).is_empty());
    let total: usize = core.routing_table.buckets.iter().map(|b| b.nodes.len()).sum();
    assert_eq!(total, 0);
}

#[test]
fn lease_sets_are_stored_and_served() {
    let mut core = NodeCore::new(StaticKeypair::from_bytes([1u8; 32]));
    let owner = DhtPublicKey([9u8; 32]);
    let gateway = node([3u8; 32], v4(10, 3, 0, 1));
    let lease = LeaseSet { dht_pk: owner, gateways: vec![gateway], expiration: 5_000 };

    // An expired lease set is not kept.
    let old = LeaseSet { dht_pk: owner, gateways: vec![], expiration: 4 };
    let req = dht_request(owner, &DhtPayload::StoreLeaseRequest { lease: old }).unwrap();
    assert!(core.handle_packet(v4(10, 0, 0, 9), &req, 4_000).is_empty());
    assert!(core.stored_lease(&owner).is_none());

    let req = dht_request(owner, &DhtPayload::StoreLeaseRequest { lease }).unwrap();
    assert!(core.handle_packet(v4(10, 0, 0, 9), &req, 4_000).is_empty());
    let stored = core.stored_lease(&owner).unwrap();
    assert_eq!(stored.expiration, 5_000);
    assert_eq!(stored.gateways[0].dht_pk, gateway.dht_pk);

    let asker = DhtPublicKey([4u8; 32]);
    let req = dht_request(asker, &DhtPayload::GetLeaseRequest { target_pk: owner }).unwrap();
    let actions = core.handle_packet(v4(10, 0, 0, 4), &req, 4_000);
    assert_eq!(actions.len(), 1);
    match reply_payload(&actions[0]) {
        DhtPayload::GetLeaseResponse { lease: Some(l) } => {
            assert_eq!(l.dht_pk, owner);
            assert_eq!(l.expiration, 5_000);
        },
        _ => panic!("expected the lease set"),
    }
    let req = dht_request(asker, &DhtPayload::GetLeaseRequest { target_pk: DhtPublicKey([5u8; 32]) }).unwrap();
    let actions = core.handle_packet(v4(10, 0, 0, 4), &req, 4_000);
    assert!(matches!(reply_payload(&actions[0]), DhtPayload::GetLeaseResponse { lease: None }));
}

#[test]
fn offline_blobs_are_stored_and_retrieved() {
    let mut core = NodeCore::new(StaticKeypair::from_bytes([1u8; 32]));
    let sender = StaticKeypair::from_bytes([2u8; 32]);
    let blob = OffloadClient::create_message_with(&sender, &[3u8; 32], b"hi", [0u8; 12], 10_000).unwrap();
    let target = [6u8; 32];
    let store = encode_packet(PacketType::OffloadStore, &encode_store_request(&target, &blob));
    assert!(core.handle_packet(v4(10, 0, 0, 2), &store, 5_000_000).is_empty());

    let retrieve = encode_packet(PacketType::OffloadRetrieve, &target);
    let actions = core.handle_packet(v4(10, 0, 0, 3), &retrieve, 5_000_000);
    assert_eq!(actions.len(), 1);
    assert_eq!(actions[0].to.addr, v4(10, 0, 0, 3));
    assert_eq!(actions[0].to.dht_pk, DhtPublicKey([0u8; 32]));
    let (t, body) = decode_packet(&actions[0].bytes).unwrap();
    assert_eq!(t, PacketType::OffloadRetrieve);
    assert_eq!(body, encode_blobs(&vec![blob]).as_slice());

    // The blobs were handed out once.
    let actions = core.handle_packet(v4(10, 0, 0, 3), &retrieve, 5_000_000);
    let (_, body) = decode_packet(&actions[0].bytes).unwrap();
    assert_eq!(body, encode_blobs(&Vec::<OfflineBlob>::new()).as_slice());
}

#[test]
fn invalid_blob_is_not_stored() {
    let mut core = NodeCore::new(StaticKeypair::from_bytes([1u8; 32]));
    let blob = OfflineBlob {
        nonce: [0u8; 12],
        ciphertext: vec![1u8; 8],
        sender_sig: vec![0u8; 64],
        sender_pk: IdentityPublicKey([1u8; 32]),
        sender_dht_pk: IdentityPublicKey([1u8; 32]),
        expires_at: u64::MAX,
        pow_token: [0u8; 32],
        pow_nonce: 0,
    };
    let target = [6u8; 32];
    let store = encode_packet(PacketType::OffloadStore, &encode_store_request(&target, &blob));
    core.handle_packet(v4(10, 0, 0, 2), &store, 0);
    assert!(!core.blob_store.has_queue(&target));
}

#[test]
fn onion_packet_is_relayed_hop_by_hop_then_delivered() {
    let kps = [StaticKeypair::from_bytes([11u8; 32]), StaticKeypair::from_bytes([12u8; 32]), StaticKeypair::from_bytes([13u8; 32])];
    let addrs = [v4(10, 1, 0, 1), v4(10, 2, 0, 1), v4(10, 3, 0, 1)];
    let hops: Vec<NodeInfo> = (0..3).map(|i| node(kps[i].public, addrs[i])).collect();
    let mut cores: Vec<NodeCore> = kps.iter().map(|k| NodeCore::new(StaticKeypair::from_bytes(k.seed))).collect();

    // The innermost payload is a framed FindNode request from a peer.
    let peer = DhtPublicKey([7u8; 32]);
    let inner = dht_request(peer, &DhtPayload::FindNodeRequest { target_pk: peer }).unwrap();
    let tunnel = OnionTunnel::new(TunnelDirection::Outbound, hops[0], hops[1], hops[2]);
    let onion = wrap_onion(&inner, &tunnel).unwrap();
    let first = encode_packet(PacketType::OnionRequest, &onion);

    let a1 = cores[0].handle_packet(v4(10, 9, 9, 9), &first, 0);
    assert_eq!(a1.len(), 1);
    assert_eq!(a1[0].to.dht_pk, hops[1].dht_pk);
    assert_eq!(a1[0].to.addr, hops[1].addr);
    assert_eq!(a1[0].to.last_seen, None);

    let a2 = cores[1].handle_packet(addrs[0], &a1[0].bytes, 0);
    assert_eq!(a2.len(), 1);
    assert_eq!(a2[0].to.dht_pk, hops[2].dht_pk);

    // The last hop delivers: it serves the FindNode request it finds inside.
    let a3 = cores[2].handle_packet(addrs[1], &a2[0].bytes, 0);
    assert_eq!(a3.len(), 1);
    assert_eq!(a3[0].to.dht_pk, peer);
    assert!(matches!(reply_payload(&a3[0]), DhtPayload::FindNodeResponse { .. }));

    // A hop that does not hold the layer's key cannot open it.
    assert!(cores[1].handle_packet(v4(10, 9, 9, 9), &first, 0).is_empty());
}

#[test]
fn gateways_are_the_three_best_reputations() {
    let mut core = NodeCore::new(StaticKeypair::from_bytes([1u8; 32]));
    for (i, rep) in [(1u8, 5i8), (2, 9), (3, 9), (4, -3), (5, 7)] {
        let mut n = node([i; 32], v4(10, i, 0, 1));
        n.reputation = rep;
        core.routing_table.insert(n);
    }
    let lease = core.renew_lease(1_000).unwrap();
    assert_eq!(lease.expiration, 1_000 + 3600);
    assert_eq!(lease.dht_pk, DhtPublicKey(core.keypair.public));
    let reps: Vec<i8> = lease.gateways.iter().map(|g| g.reputation).collect();
    assert_eq!(reps, vec![9, 9, 7]);
    assert_eq!(core.current_lease.as_ref().unwrap().expiration, 4_600);

    let mut small = NodeCore::new(StaticKeypair::from_bytes([2u8; 32]));
    small.routing_table.insert(node([1u8; 32], v4(10, 1, 0, 1)));
    small.routing_table.insert(node([3u8; 32], v4(10, 3, 0, 1)));
    assert!(small.renew_lease(1_000).is_none());
    assert!(small.current_lease.is_none());
    assert!(select_gateways(&small.routing_table, &DhtPublicKey(small.keypair.public)).is_none());
}

#[test]
fn ranking_is_stable() {
    let mut cs = Vec::new();
    for (i, rep) in [(1u8, 0i8), (2, 4), (3, 0), (4, 4), (5, 1)] {
        let mut n = node([i; 32], v4(10, i, 0, 1));
        n.reputation = rep;
        cs.push(n);
    }
    let top = top_by_reputation(&cs, 4);
    let keys: Vec<u8> = top.iter().map(|n| n.dht_pk.0[0]).collect();
    assert_eq!(keys, vec![2, 4, 5, 1]);
    assert_eq!(top_by_reputation(&cs, 10).len(), 5);
    assert!(top_by_reputation(&cs, 0).is_empty());
}

#[test]
fn lookup_asks_three_new_nodes_per_round() {
    let mut table = RoutingTable::new(DhtPublicKey([0u8; 32]));
    for i in 1u8..=5 {
        table.insert(node([i; 32], v4(10, i, 0, 1)));
    }
    let target = DhtPublicKey([1u8; 32]);
    let mut lookup = DhtLookup::new(target);
    let mut asked = Vec::new();
    let mut rounds = 0;
    loop {
        match lookup.step(&table) {
            LookupStep::Query(actions) => {
                assert!(actions.len() <= 3 && !actions.is_empty());
                for a in &actions {
                    assert!(!asked.contains(&a.to.dht_pk.0));
                    asked.push(a.to.dht_pk.0);
                    let (t, _) = decode_packet(&a.bytes).unwrap();
                    assert_eq!(t, PacketType::FindNode);
                }
                rounds += 1;
            },
            LookupStep::Done(found) => {
                assert_eq!(found.len(), 5);
                assert_eq!(found[0].dht_pk, target);
                break;
            },
        }
    }
    assert_eq!(rounds, 2);
    assert_eq!(asked.len(), 5);
    assert_eq!(asked[0], [1u8; 32]);
}

#[test]
fn lookup_candidates_skip_queried_keys() {
    let cs: Vec<NodeInfo> = (1u8..=5).map(|i| node([i; 32], v4(10, i, 0, 1))).collect();
    let picked = lookup_candidates(&cs, &vec![[2u8; 32], [4u8; 32]]);
    let keys: Vec<u8> = picked.iter().map(|n| n.dht_pk.0[0]).collect();
    assert_eq!(keys, vec![1, 3, 5]);
    assert!(lookup_candidates(&cs, &cs.iter().map(|n| n.dht_pk.0).collect::<Vec<_>>()).is_empty());
}
