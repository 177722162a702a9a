use zero_protocol::session::lossless::{LosslessQueue, MAX_RETRIES, RETRY_INTERVAL_MS};
use zero_protocol::session::lossy::LossyStream;
use zero_protocol::session::ratchet::DoubleRatchetState;
use zero_protocol::session::sync::MultiDeviceSyncManager;

fn now_millis() -> u64 {
    std::time::SystemTime::now().duration_since(std::time::UNIX_EPOCH).unwrap().as_millis() as u64
}

// ── Lossless delivery ───────────────────────────────────────────────────

#[test]
fn test_enqueue_assigns_sequential_seqs() {
    let mut q = LosslessQueue::new();
    let s0 = q.enqueue_outgoing(b"hello".to_vec());
    let s1 = q.enqueue_outgoing(b"world".to_vec());
    assert_eq!(s0, 0);
    assert_eq!(s1, 1);
}

#[test]
fn test_ack_removes_from_unacked() {
    let mut q = LosslessQueue::new();
    let seq = q.enqueue_outgoing(b"ping".to_vec());
    assert!(q.unacked_messages.contains_key(&seq));
    q.receive_ack(seq);
    assert!(!q.unacked_messages.contains_key(&seq));
}

#[test]
fn test_ack_nonexistent_seq_is_safe() {
    let mut q = LosslessQueue::new();
    q.receive_ack(999); // should not panic
}

#[test]
fn test_in_order_delivery() {
    let mut q = LosslessQueue::new();
    let delivered = q.receive_packet(0, b"msg0".to_vec());
    assert_eq!(delivered.len(), 1);
    assert_eq!(delivered[0], b"msg0");

    let delivered = q.receive_packet(1, b"msg1".to_vec());
    assert_eq!(delivered.len(), 1);
    assert_eq!(delivered[0], b"msg1");
}

#[test]
fn test_out_of_order_buffering_then_delivery() {
    let mut q = LosslessQueue::new();

    // Arrive out of order: seq=1 before seq=0
    let d1 = q.receive_packet(1, b"world".to_vec());
    assert_eq!(d1.len(), 0, "seq=1 should be buffered, not delivered yet");

    let d2 = q.receive_packet(0, b"hello".to_vec());
    assert_eq!(d2.len(), 2, "seq=0 arrival should flush both buffered packets");
    assert_eq!(d2[0], b"hello");
    assert_eq!(d2[1], b"world");
}

#[test]
fn test_gap_prevents_delivery_of_later_packets() {
    let mut q = LosslessQueue::new();

    // seq=0 delivered, then seq=2 arrives (gap at seq=1)
    q.receive_packet(0, b"a".to_vec());
    let buffered = q.receive_packet(2, b"c".to_vec());
    assert_eq!(buffered.len(), 0, "seq=2 should be buffered pending seq=1");

    // Filling the gap delivers seq=1 and seq=2 together
    let flushed = q.receive_packet(1, b"b".to_vec());
    assert_eq!(flushed.len(), 2);
    assert_eq!(flushed[0], b"b");
    assert_eq!(flushed[1], b"c");
}

#[test]
fn test_fresh_message_not_in_retransmit_queue() {
    let mut q = LosslessQueue::new();
    q.enqueue_outgoing(b"recent".to_vec());
    // Retransmit interval is 2s — a freshly-sent message should NOT appear
    let retransmits = q.get_retransmit_queue();
    assert_eq!(retransmits.len(), 0);
}

#[test]
fn test_exhausted_retries_not_retransmitted() {
    let mut q = LosslessQueue::new();
    q.enqueue_outgoing(b"dead".to_vec());

    // Manually set retries to MAX_RETRIES on the message
    for msg in q.unacked_messages.values_mut() {
        msg.retries = MAX_RETRIES;
        msg.last_sent = now_millis() - 10_000;
    }

    let retransmits = q.get_retransmit_queue();
    assert_eq!(retransmits.len(), 0, "Exhausted messages should not be retransmitted");
}

#[test]
fn test_prune_dead_messages_removes_exhausted() {
    let mut q = LosslessQueue::new();
    q.enqueue_outgoing(b"dead".to_vec());
    q.enqueue_outgoing(b"alive".to_vec());

    // Max out retries on seq=0 only
    q.unacked_messages.get_mut(&0).unwrap().retries = MAX_RETRIES;

    q.prune_dead_messages();

    assert!(!q.unacked_messages.contains_key(&0), "Dead message should be pruned");
    assert!(q.unacked_messages.contains_key(&1), "Alive message should remain");
}

#[test]
fn retransmission_schedule() {
    let mut q = LosslessQueue::new();
    q.enqueue_outgoing_at(b"a".to_vec(), 1_000);
    q.enqueue_outgoing_at(b"b".to_vec(), 2_000);
    // Not yet due.
    assert!(q.get_retransmit_queue_at(2_999).is_empty());
    // Only the first message is due exactly one interval later.
    let due = q.get_retransmit_queue_at(1_000 + RETRY_INTERVAL_MS);
    assert_eq!(due, vec![(0, b"a".to_vec())]);
    assert_eq!(q.unacked_messages[&0].retries, 1);
    assert_eq!(q.unacked_messages[&0].last_sent, 3_000);
    // Both are due later, in sequence order.
    let due = q.get_retransmit_queue_at(10_000);
    assert_eq!(due, vec![(0, b"a".to_vec()), (1, b"b".to_vec())]);
    // After MAX_RETRIES sends a message is no longer retransmitted.
    let mut now = 10_000;
    for _ in 0..10 {
        now += RETRY_INTERVAL_MS;
        q.get_retransmit_queue_at(now);
    }
    assert_eq!(q.unacked_messages[&0].retries, MAX_RETRIES);
    assert!(q.get_retransmit_queue_at(now + 100_000).is_empty());
    q.prune_dead_messages();
    assert!(q.unacked_messages.is_empty());
}

#[test]
fn duplicate_and_old_packets_are_not_redelivered() {
    let mut q = LosslessQueue::new();
    assert_eq!(q.receive_packet(0, b"x".to_vec()).len(), 1);
    // A packet before the next expected one is dropped.
    assert!(q.receive_packet(0, b"x".to_vec()).is_empty());
    assert_eq!(q.next_recv_seq, 1);
    // A buffered packet is replaced by a later copy.
    assert!(q.receive_packet(3, b"first".to_vec()).is_empty());
    assert!(q.receive_packet(3, b"second".to_vec()).is_empty());
    assert!(q.receive_packet(2, b"two".to_vec()).is_empty());
    let out = q.receive_packet(1, b"one".to_vec());
    assert_eq!(out, vec![b"one".to_vec(), b"two".to_vec(), b"second".to_vec()]);
    assert_eq!(q.next_recv_seq, 4);
    // The stale copy of packet 0 was dropped: the buffer holds only early arrivals.
    assert!(q.recv_buffer.is_empty());
    assert!(q.receive_packet(2, b"again".to_vec()).is_empty());
    assert!(q.recv_buffer.is_empty());
    assert_eq!(q.next_recv_seq, 4);
}

#[test]
fn default_queue_is_empty() {
    let q = LosslessQueue::default();
    assert_eq!(q.next_send_seq, 0);
    assert_eq!(q.next_recv_seq, 0);
    assert!(q.unacked_messages.is_empty());
}

// ── Ratchet ─────────────────────────────────────────────────────────────

fn make_state(seed: u8) -> DoubleRatchetState {
    DoubleRatchetState::new([seed; 32])
}

#[test]
fn test_send_ratchet_produces_unique_keys() {
    let mut state = make_state(0xAA);
    let k1 = state.ratchet_send();
    let k2 = state.ratchet_send();
    let k3 = state.ratchet_send();
    assert_ne!(k1, k2);
    assert_ne!(k2, k3);
    assert_ne!(k1, k3);
}

#[test]
fn test_send_ratchet_is_deterministic() {
    let seed = [0x42u8; 32];
    let mut s1 = DoubleRatchetState::new(seed);
    let mut s2 = DoubleRatchetState::new(seed);
    assert_eq!(s1.ratchet_send(), s2.ratchet_send());
    assert_eq!(s1.ratchet_send(), s2.ratchet_send());
}

#[test]
fn test_recv_ratchet_produces_unique_keys() {
    let mut state = make_state(0xBB);
    let k1 = state.ratchet_recv();
    let k2 = state.ratchet_recv();
    assert_ne!(k1, k2);
}

#[test]
fn test_recv_ratchet_is_deterministic() {
    let seed = [0x55u8; 32];
    let mut s1 = DoubleRatchetState::new(seed);
    let mut s2 = DoubleRatchetState::new(seed);
    assert_eq!(s1.ratchet_recv(), s2.ratchet_recv());
}

#[test]
fn test_send_and_recv_chains_are_independent() {
    let mut state = make_state(0xCC);
    let send_key = state.ratchet_send();
    let recv_key = state.ratchet_recv();
    // Send and recv derive from the same root but with different domain separators
    assert_ne!(send_key, recv_key, "Send and recv chains must produce different keys even from same root");
}

#[test]
fn test_send_chain_does_not_affect_recv_chain() {
    let seed = [0x77u8; 32];
    let mut s1 = DoubleRatchetState::new(seed);
    let mut s2 = DoubleRatchetState::new(seed);

    // Advance send chain on s1 several times
    s1.ratchet_send();
    s1.ratchet_send();
    s1.ratchet_send();

    // Recv chain on both should still agree (send chain doesn't affect recv chain)
    assert_eq!(s1.ratchet_recv(), s2.ratchet_recv());
}

#[test]
fn test_message_key_differs_from_new_chain_key() {
    let mut s = make_state(0x11);
    let before_chain = s.send_chain_key;
    let msg_key = s.ratchet_send();
    let after_chain = s.send_chain_key;

    assert_ne!(msg_key, after_chain, "Message key must not equal the new chain key");
    assert_ne!(before_chain, after_chain, "Chain key must advance after ratchet");
}

#[test]
fn ratchet_keeps_root_key() {
    let mut s = make_state(0x12);
    s.ratchet_send();
    s.ratchet_recv();
    assert_eq!(s.root_key, [0x12; 32]);
}

// ── Lossy stream and device sync ────────────────────────────────────────

#[test]
fn lossy_sequence_wraps() {
    let mut s = LossyStream::new();
    assert_eq!(s.next_seq(), 0);
    assert_eq!(s.next_seq(), 1);
    s.current_sequence = u16::MAX;
    assert_eq!(s.next_seq(), u16::MAX);
    assert_eq!(s.next_seq(), 0);
}

#[test]
fn sync_blob_is_empty() {
    let m = MultiDeviceSyncManager::new();
    let b = m.prepare_sync_blob();
    assert!(b.message_history_patch.is_empty());
    assert!(b.contact_list_patch.is_empty());
    assert!(b.group_state_patch.is_empty());
}
