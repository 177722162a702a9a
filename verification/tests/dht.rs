use zero_protocol::dht::node::{DhtPublicKey, IpAddress, LeaseSet, NodeInfo, SocketAddress};
use zero_protocol::dht::packet::{DhtPacket, DhtPayload};
use zero_protocol::dht::routing::{Distance, RoutingTable, K};
use zero_protocol::dht::wire::{decode_dht_packet, decode_payload, encode_dht_packet, encode_payload};

fn make_pk(seed: u8) -> DhtPublicKey {
    DhtPublicKey([seed; 32])
}

fn v4(a: u8, b: u8, c: u8, d: u8) -> SocketAddress {
    SocketAddress { ip: IpAddress::V4([a, b, c, d]), port: 33445 }
}

fn make_node(pk_seed: u8, ip_suffix: u8) -> NodeInfo {
    NodeInfo::new(make_pk(pk_seed), v4(10, 0, 0, ip_suffix))
}

fn total_nodes(rt: &RoutingTable) -> usize {
    rt.buckets.iter().map(|b| b.nodes.len()).sum()
}

#[test]
fn test_packet_serialization() {
    let pk = DhtPublicKey([1u8; 32]);
    let packet = DhtPacket::new(pk, vec![1, 2, 3]);

    let bytes = encode_dht_packet(&packet);
    let decoded: DhtPacket = decode_dht_packet(&bytes).unwrap();

    assert_eq!(decoded.sender_pk, pk);
    assert_eq!(decoded.encrypted_payload, vec![1, 2, 3]);
}

#[test]
fn test_nonces_are_unique() {
    let pk = DhtPublicKey([0u8; 32]);
    let p1 = DhtPacket::new(pk, vec![]);
    let p2 = DhtPacket::new(pk, vec![]);
    // Statistically impossible for two random nonces to match
    assert_ne!(p1.nonce, p2.nonce);
}

#[test]
fn test_distance_leading_zeros_all_same() {
    let a = make_pk(0xFF);
    let b = make_pk(0xFF);
    let dist = Distance::calculate(&a, &b);
    assert_eq!(dist.leading_zeros(), 256); // identical keys = zero distance
}

#[test]
fn test_distance_first_bit_differs() {
    let mut a_bytes = [0u8; 32];
    let b_bytes = [0u8; 32];
    a_bytes[0] = 0b10000000;
    let dist = Distance::calculate(&DhtPublicKey(a_bytes), &DhtPublicKey(b_bytes));
    assert_eq!(dist.leading_zeros(), 0);
}

#[test]
fn test_insert_self_rejected() {
    let local = make_pk(0xAA);
    let mut rt = RoutingTable::new(local);
    let self_node = NodeInfo::new(local, v4(10, 0, 0, 1));
    let inserted = rt.insert(self_node);
    assert!(!inserted, "Should not be able to insert self");
    assert_eq!(rt.buckets[0].nodes.len(), 0);
}

#[test]
fn test_basic_insert_and_find() {
    let local = make_pk(0x00);
    let mut rt = RoutingTable::new(local);

    let node = make_node(0x01, 1);
    assert!(rt.insert(node));

    let closest = rt.find_closest(&make_pk(0x01), 1);
    assert_eq!(closest.len(), 1);
    assert_eq!(closest[0].dht_pk, make_pk(0x01));
}

#[test]
fn test_duplicate_insert_updates_not_duplicates() {
    let local = make_pk(0x00);
    let mut rt = RoutingTable::new(local);

    let node = make_node(0x01, 1);
    rt.insert(node.clone());
    rt.insert(node.clone());
    rt.insert(node.clone());

    assert_eq!(total_nodes(&rt), 1, "Duplicate inserts should not add extra nodes");
}

#[test]
fn test_sybil_protection_same_subnet() {
    let local = make_pk(0x00);
    let mut rt = RoutingTable::new(local);

    // 3 nodes on the same /24 subnet — only first 2 should be admitted
    for i in 1u8..=3 {
        let node = NodeInfo::new(make_pk(i), v4(192, 168, 1, i));
        rt.insert(node);
    }

    let same_subnet_count = rt
        .buckets
        .iter()
        .flat_map(|b| b.nodes.iter())
        .filter(|n| match n.addr.ip {
            IpAddress::V4(o) => o[0..3] == [192, 168, 1],
            IpAddress::V6(_) => false,
        })
        .count();

    assert!(same_subnet_count <= 2, "Anti-sybil: max 2 nodes per /24 subnet, got {}", same_subnet_count);
}

#[test]
fn test_eviction_of_bad_reputation_nodes() {
    let local = make_pk(0x00);
    let mut rt = RoutingTable::new(local);

    // Fill the bucket
    for i in 1..=(K as u8) {
        rt.insert(NodeInfo::new(make_pk(i), v4(10, i, 0, 1)));
    }

    // Sabotage first node's reputation
    rt.buckets[0].nodes[0].reputation = -11;

    // Try to insert a new node that can replace the bad one
    let new_node = NodeInfo::new(make_pk(0xFE), v4(10, 99, 0, 1));
    let inserted = rt.insert(new_node);
    assert!(inserted, "Bad-reputation node should be evicted for new node");
}

#[test]
fn sybil_third_node_of_subnet_refused_and_other_subnet_accepted() {
    let mut rt = RoutingTable::new(make_pk(0x00));
    assert!(rt.insert(NodeInfo::new(make_pk(1), v4(192, 168, 1, 1))));
    assert!(rt.insert(NodeInfo::new(make_pk(2), v4(192, 168, 1, 2))));
    assert!(!rt.insert(NodeInfo::new(make_pk(3), v4(192, 168, 1, 3))));
    assert!(rt.insert(NodeInfo::new(make_pk(4), v4(192, 168, 2, 3))));
    assert_eq!(total_nodes(&rt), 3);
}

#[test]
fn ipv6_nodes_have_no_subnet_limit() {
    let mut rt = RoutingTable::new(make_pk(0x00));
    for i in 1u8..=4 {
        let addr = SocketAddress { ip: IpAddress::V6([0x2001, 0xdb8, 0, 0, 0, 0, 0, i as u16]), port: 1 };
        assert!(rt.insert(NodeInfo::new(make_pk(i), addr)));
    }
    assert_eq!(total_nodes(&rt), 4);
}

#[test]
fn full_last_bucket_splits() {
    let mut rt = RoutingTable::new(make_pk(0x00));
    // K + 1 nodes in distinct subnets, none evictable: the only bucket splits.
    for i in 1..=(K as u8 + 1) {
        rt.insert(NodeInfo::new(make_pk(i), v4(10, i, 0, 1)));
    }
    assert!(rt.buckets.len() >= 2);
    assert!(total_nodes(&rt) >= K);
}

#[test]
fn find_closest_is_sorted_by_distance() {
    let mut rt = RoutingTable::new(make_pk(0x00));
    for i in 1u8..=8 {
        rt.insert(NodeInfo::new(make_pk(i), v4(10, i, 0, 1)));
    }
    let target = make_pk(0x06);
    let closest = rt.find_closest(&target, 8);
    assert_eq!(closest.len(), 8);
    for w in closest.windows(2) {
        let a = Distance::calculate(&w[0].dht_pk, &target);
        let b = Distance::calculate(&w[1].dht_pk, &target);
        assert!(a.0 < b.0);
    }
    assert_eq!(closest[0].dht_pk, make_pk(0x06));
}

#[test]
fn find_closest_with_count_zero_is_empty() {
    let mut rt = RoutingTable::new(make_pk(0x00));
    rt.insert(make_node(1, 1));
    assert!(rt.find_closest(&make_pk(1), 0).is_empty());
}

#[test]
fn node_subnet_and_reputation() {
    let mut n = make_node(1, 7);
    assert_eq!(n.subnet_24(), Some([10, 0, 0]));
    n.mark_seen();
    assert_eq!(n.reputation, 1);
    assert_eq!(n.consecutive_failures, 0);
    n.mark_failure();
    assert_eq!(n.consecutive_failures, 1);
    assert_eq!(n.reputation, -4);
    let v6 = NodeInfo::new(make_pk(2), SocketAddress { ip: IpAddress::V6([1, 2, 3, 4, 5, 6, 7, 8]), port: 9 });
    assert_eq!(v6.subnet_24(), None);
}

#[test]
fn payload_round_trips() {
    let mut node = make_node(3, 3);
    node.reputation = -5;
    let lease = LeaseSet { dht_pk: make_pk(9), gateways: vec![node], expiration: 1_700_000_000 };
    let payloads = vec![
        DhtPayload::PingRequest,
        DhtPayload::FindNodeRequest { target_pk: make_pk(4) },
        DhtPayload::FindNodeResponse { nodes: vec![node, make_node(5, 5)] },
        DhtPayload::StoreLeaseRequest { lease: lease.clone() },
        DhtPayload::GetLeaseRequest { target_pk: make_pk(9) },
        DhtPayload::GetLeaseResponse { lease: Some(lease) },
        DhtPayload::GetLeaseResponse { lease: None },
    ];
    for p in payloads {
        let bytes = encode_payload(&p);
        let back = decode_payload(&bytes).unwrap();
        // The time of last sighting is not carried.
        assert_eq!(encode_payload(&back), bytes);
    }
    match decode_payload(&encode_payload(&DhtPayload::FindNodeResponse { nodes: vec![node] })).unwrap() {
        DhtPayload::FindNodeResponse { nodes } => {
            assert_eq!(nodes.len(), 1);
            assert_eq!(nodes[0].dht_pk, node.dht_pk);
            assert_eq!(nodes[0].addr, node.addr);
            assert_eq!(nodes[0].reputation, -5);
            assert_eq!(nodes[0].last_seen, None);
        },
        _ => panic!("wrong variant"),
    }
}

#[test]
fn truncated_payloads_are_refused() {
    let bytes = encode_payload(&DhtPayload::FindNodeRequest { target_pk: make_pk(4) });
    assert!(decode_payload(&bytes[..bytes.len() - 1]).is_none());
    assert!(decode_payload(&[9, 0, 0, 0]).is_none());
    assert!(decode_dht_packet(&[0u8; 10]).is_none());
}

#[test]
fn touching_a_bucket_keeps_its_nodes() {
    let mut rt = RoutingTable::new(make_pk(0x00));
    rt.insert(make_node(1, 1));
    let before = rt.buckets[0].last_updated;
    rt.buckets[0].touch();
    assert!(rt.buckets[0].last_updated >= before);
    assert_eq!(rt.buckets[0].nodes.len(), 1);
    assert_eq!(rt.buckets[0].prefix_length, 0);
}

#[test]
fn xor_distance_is_symmetric_and_zero_only_for_equal_keys() {
    let a = DhtPublicKey([0x5Au8; 32]);
    let mut b_bytes = [0x5Au8; 32];
    b_bytes[7] = 0x12;
    let b = DhtPublicKey(b_bytes);
    assert_eq!(Distance::calculate(&a, &b).0, Distance::calculate(&b, &a).0);
    assert_eq!(Distance::calculate(&a, &a).0, [0u8; 32]);
    assert_ne!(Distance::calculate(&a, &b).0, [0u8; 32]);
    assert_eq!(Distance::calculate(&a, &b).leading_zeros(), 7 * 8 + 1);
}

#[test]
fn five_nodes_of_one_subnet_leave_two() {
    let local = make_pk(0x00);
    let mut rt = RoutingTable::new(local);
    // All five addresses share the /24 subnet 10.0.0.0: the bucket takes two.
    for i in 1u8..=5 {
        rt.insert(make_node(i, i));
    }
    assert_eq!(total_nodes(&rt), 2);
    let target = make_pk(0x01);
    let closest = rt.find_closest(&target, 3);
    assert_eq!(closest.len(), 2);
    assert_eq!(closest[0].dht_pk, make_pk(0x01));
}

#[test]
fn find_closest_returns_at_most_k() {
    let mut rt = RoutingTable::new(make_pk(0x00));
    // Keys 0x80..0xA7 all fall in the far half; 0x01..0x10 in nearer buckets.
    for i in 0u8..40 {
        rt.insert(NodeInfo::new(make_pk(0x80 + i), v4(10, i, 1, 1)));
    }
    for i in 1u8..=16 {
        rt.insert(NodeInfo::new(make_pk(i), v4(11, i, 1, 1)));
    }
    assert!(total_nodes(&rt) > K);
    let closest = rt.find_closest(&make_pk(0x01), 50);
    assert_eq!(closest.len(), K);
    assert_eq!(closest[0].dht_pk, make_pk(0x01));
    assert_eq!(rt.find_closest(&make_pk(0x01), 5).len(), 5);
}

#[test]
fn split_bucket_covers_the_next_prefix_and_is_stamped_now() {
    let mut rt = RoutingTable::new(make_pk(0x00));
    let prefix0 = rt.buckets[0].prefix_length;
    let stamp0 = rt.buckets[0].last_updated;
    for i in 1..=(K as u8 + 1) {
        rt.insert_at(NodeInfo::new(make_pk(i), v4(10, i, 0, 1)), 777);
    }
    assert_eq!(rt.buckets.len(), 2);
    assert_eq!(rt.buckets[0].prefix_length, prefix0);
    assert_eq!(rt.buckets[0].last_updated, stamp0);
    assert_eq!(rt.buckets[1].prefix_length, 1);
    assert_eq!(rt.buckets[1].last_updated, 777);
}
