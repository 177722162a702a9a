use zero_protocol::crypto::keypair::StaticKeypair;
use zero_protocol::offload::blob::{IdentityPublicKey, OfflineBlob};
use zero_protocol::offload::client::OffloadClient;
use zero_protocol::offload::error::OffloadError;
use zero_protocol::offload::store::{BlobStore, MAX_BLOB_SIZE};

fn dummy_blob(sender_seed: u8, expires_at: u64) -> OfflineBlob {
    OfflineBlob {
        nonce: [0u8; 12],
        ciphertext: vec![0xABu8; 64],
        sender_sig: vec![0u8; 64],
        sender_pk: IdentityPublicKey([sender_seed; 32]),
        sender_dht_pk: IdentityPublicKey([sender_seed; 32]),
        expires_at,
        pow_token: [0u8; 32],
        pow_nonce: 0,
    }
}

fn target_key(seed: u8) -> [u8; 32] {
    [seed; 32]
}

/// Bypasses PoW/sig verification to directly insert blobs for store-level tests.
fn force_store(store: &mut BlobStore, target: [u8; 32], blob: OfflineBlob) {
    store.enqueue_blob(target, blob);
}

#[test]
fn test_fetch_returns_stored_blobs() {
    let mut store = BlobStore::new();
    let target = target_key(1);
    force_store(&mut store, target, dummy_blob(10, u64::MAX));
    force_store(&mut store, target, dummy_blob(10, u64::MAX));

    let blobs = store.fetch_blobs(&target);
    assert_eq!(blobs.len(), 2);
}

#[test]
fn test_fetch_removes_blobs_from_store() {
    let mut store = BlobStore::new();
    let target = target_key(2);
    force_store(&mut store, target, dummy_blob(20, u64::MAX));

    store.fetch_blobs(&target);
    let blobs = store.fetch_blobs(&target);
    assert_eq!(blobs.len(), 0, "Blobs should be gone after first fetch");
}

#[test]
fn test_fetch_nonexistent_target_returns_empty() {
    let mut store = BlobStore::new();
    let blobs = store.fetch_blobs(&target_key(99));
    assert!(blobs.is_empty());
}

#[test]
fn test_sender_rate_decremented_on_fetch() {
    let mut store = BlobStore::new();
    let target = target_key(3);
    let sender = IdentityPublicKey([30u8; 32]);

    force_store(&mut store, target, dummy_blob(30, u64::MAX));
    assert_eq!(store.sender_rate(&sender.0).unwrap(), 1);

    store.fetch_blobs(&target);
    assert!(store.sender_rate(&sender.0).is_none(), "Sender rate should be cleaned up after all blobs fetched");
}

#[test]
fn test_sender_rate_decremented_on_expiry() {
    let mut store = BlobStore::new();
    let target = target_key(4);
    let sender = IdentityPublicKey([40u8; 32]);

    // Blob expired at time=100
    force_store(&mut store, target, dummy_blob(40, 100));
    assert_eq!(store.sender_rate(&sender.0).unwrap(), 1);

    // Cleanup at time=200 (after expiry)
    store.cleanup_expired(200);
    assert!(store.sender_rate(&sender.0).is_none(), "Sender rate should be cleaned up after blob expiry");
}

#[test]
fn test_non_expired_blob_survives_cleanup() {
    let mut store = BlobStore::new();
    let target = target_key(5);
    force_store(&mut store, target, dummy_blob(50, 9999));

    store.cleanup_expired(100);
    assert!(store.has_queue(&target), "Non-expired blob should remain");
}

#[test]
fn test_empty_queues_pruned_after_cleanup() {
    let mut store = BlobStore::new();
    let target = target_key(6);
    force_store(&mut store, target, dummy_blob(60, 100));

    store.cleanup_expired(200);
    assert!(!store.has_queue(&target), "Empty queue should be pruned");
}

#[test]
fn test_oversized_blob_rejected() {
    let mut store = BlobStore::new();
    let target = target_key(7);
    let mut big_blob = dummy_blob(70, u64::MAX);
    big_blob.ciphertext = vec![0u8; MAX_BLOB_SIZE + 1];

    let result = store.store_blob(target, big_blob, 0);
    assert!(result.is_err(), "Oversized blob should be rejected");
}

#[test]
fn fetch_keeps_other_targets_and_order() {
    let mut store = BlobStore::new();
    force_store(&mut store, target_key(1), dummy_blob(1, 10));
    force_store(&mut store, target_key(2), dummy_blob(2, 20));
    force_store(&mut store, target_key(1), dummy_blob(3, 30));
    let blobs = store.fetch_blobs(&target_key(1));
    assert_eq!(blobs.len(), 2);
    assert_eq!(blobs[0].expires_at, 10);
    assert_eq!(blobs[1].expires_at, 30);
    assert!(store.has_queue(&target_key(2)));
    assert_eq!(store.sender_rate(&[2u8; 32]), Some(1));
    assert_eq!(store.sender_rate(&[1u8; 32]), None);
}

#[test]
fn cleanup_keeps_blob_expiring_exactly_now() {
    let mut store = BlobStore::new();
    force_store(&mut store, target_key(1), dummy_blob(1, 100));
    store.cleanup_expired(100);
    assert!(store.has_queue(&target_key(1)));
    store.cleanup_expired(101);
    assert!(!store.has_queue(&target_key(1)));
}

#[test]
fn valid_blob_is_stored_then_quota_applies() {
    let sender = StaticKeypair::from_bytes([5u8; 32]);
    let recipient = StaticKeypair::from_bytes([6u8; 32]);
    let blob = OffloadClient::create_message_with(&sender, &recipient.public, b"hello", [9u8; 12], 1000).unwrap();
    assert_eq!(blob.expires_at, 1000);
    assert_eq!(blob.sender_dht_pk.0, sender.public);
    assert!(blob.verify_integrity(999).is_ok());
    assert!(matches!(blob.verify_integrity(1001), Err(OffloadError::Expired)));

    let mut store = BlobStore::new();
    let target = target_key(8);
    assert!(store.store_blob(target, blob.clone(), 500).is_ok());
    assert_eq!(store.sender_rate(&blob.sender_pk.0), Some(1));

    // Fill the sender's quota up to 50 blobs.
    for _ in 0..49 {
        let mut b = dummy_blob(0, 1000);
        b.sender_pk = blob.sender_pk.clone();
        store.enqueue_blob(target, b);
    }
    assert_eq!(store.sender_rate(&blob.sender_pk.0), Some(50));
    assert!(matches!(store.store_blob(target, blob.clone(), 500), Err(OffloadError::RateLimited)));
    assert_eq!(store.fetch_blobs(&target).len(), 50);
}

#[test]
fn tampered_blobs_fail_integrity() {
    let sender = StaticKeypair::from_bytes([1u8; 32]);
    let blob = OffloadClient::create_message_with(&sender, &[2u8; 32], b"payload", [0u8; 12], 5000).unwrap();

    let mut bad_sig = blob.clone();
    bad_sig.sender_sig[0] ^= 1;
    assert!(matches!(bad_sig.verify_integrity(0), Err(OffloadError::InvalidSignature)));

    let mut short_sig = blob.clone();
    short_sig.sender_sig.truncate(10);
    assert!(matches!(short_sig.verify_integrity(0), Err(OffloadError::InvalidSignature)));

    let mut bad_pow = blob.clone();
    bad_pow.pow_nonce = bad_pow.pow_nonce.wrapping_add(1);
    assert!(matches!(bad_pow.verify_integrity(0), Err(OffloadError::InvalidPow)));

    let mut store = BlobStore::new();
    assert!(matches!(store.store_blob([0u8; 32], bad_sig, 0), Err(OffloadError::InvalidSignature)));
    assert!(matches!(store.store_blob([0u8; 32], blob, 6000), Err(OffloadError::Expired)));
    assert!(store.fetch_blobs(&[0u8; 32]).is_empty());
}

#[test]
fn client_messages_expire_in_a_week() {
    let sender = StaticKeypair::from_bytes([7u8; 32]);
    let secs = || std::time::SystemTime::now().duration_since(std::time::UNIX_EPOCH).unwrap().as_secs();
    let before = secs();
    let blob = OffloadClient::create_message(&sender, &[8u8; 32], b"offline hello").unwrap();
    let after = secs();
    assert!(blob.expires_at >= before + 7 * 86400 && blob.expires_at <= after + 7 * 86400);
    assert!(blob.verify_integrity(after).is_ok());
    assert_eq!(blob.ciphertext.len(), "offline hello".len() + 16);
}

#[test]
fn second_cleanup_at_the_same_time_changes_nothing() {
    let mut store = BlobStore::new();
    let target = target_key(9);
    force_store(&mut store, target, dummy_blob(90, 100));
    force_store(&mut store, target, dummy_blob(91, 9999));
    store.cleanup_expired(200);
    store.cleanup_expired(200);
    let blobs = store.fetch_blobs(&target);
    assert_eq!(blobs.len(), 1);
    assert_eq!(blobs[0].expires_at, 9999);
}
