use zero_protocol::crypto::aead::{decrypt, encrypt};
use zero_protocol::crypto::kdf::derive_key;
use zero_protocol::crypto::keypair::StaticKeypair;
use zero_protocol::crypto::noise::{build_initiator, build_responder};
use zero_protocol::crypto::pow::{check_difficulty, generate_pow, verify_pow};
use zero_protocol::crypto::recovery::{generate_recovery_phrase, recover_from_phrase};
use zero_protocol::crypto::storage::SaveData;

#[test]
fn test_encrypt_decrypt() {
    let key = [0x42; 32];
    let nonce = [0x24; 12];
    let plaintext = b"hello world";
    let aad = b"header data";

    let ciphertext = encrypt(&key, &nonce, plaintext, aad).unwrap();
    assert_ne!(plaintext.as_slice(), ciphertext.as_slice());

    let decrypted = decrypt(&key, &nonce, &ciphertext, aad).unwrap();
    assert_eq!(plaintext.as_slice(), decrypted.as_slice());

    // Wrong key
    let bad_key = [0x43; 32];
    assert!(decrypt(&bad_key, &nonce, &ciphertext, aad).is_err());
}

#[test]
fn test_derive_key() {
    let secret = [1u8; 32];
    let context = b"test-context";
    let salt = [2u8; 32];

    let key1 = derive_key(&secret, context, &salt);
    let key2 = derive_key(&secret, context, &salt);

    assert_eq!(key1, key2);

    // Different context should yield different key
    let key3 = derive_key(&secret, b"different", &salt);
    assert_ne!(key1, key3);
}

#[test]
fn test_static_keypair_generation() {
    let kp1 = StaticKeypair::generate();
    let kp2 = StaticKeypair::generate();
    assert_ne!(kp1.private.as_ref(), kp2.private.as_ref());
    assert_ne!(kp1.public, kp2.public);
}

#[test]
fn test_noise_handshake() {
    let alice_static = StaticKeypair::generate();
    let bob_static = StaticKeypair::generate();

    let mut alice = build_initiator(&alice_static, &bob_static.public).unwrap();
    let mut bob = build_responder(&bob_static).unwrap();

    let mut buf = [0u8; 1024];

    // Alice writes first message
    let len = alice.write_message(&[], &mut buf).unwrap();

    // Bob reads it
    let mut read_buf = [0u8; 1024];
    bob.read_message(&buf[..len], &mut read_buf).unwrap();

    // Bob writes second message
    let len = bob.write_message(&[], &mut buf).unwrap();

    // Alice reads it
    alice.read_message(&buf[..len], &mut read_buf).unwrap();

    assert!(alice.into_transport_mode().is_ok());
    assert!(bob.into_transport_mode().is_ok());
}

#[test]
fn test_pow() {
    let context = b"test-pow";
    let difficulty = 10; // small difficulty for fast tests
    let (hash, nonce) = generate_pow(context, difficulty).unwrap();

    assert!(verify_pow(context, nonce, &hash, difficulty).is_ok());

    // Invalid nonce
    assert!(verify_pow(context, nonce + 1, &hash, difficulty).is_err());
}

#[test]
fn test_bip39_recovery() {
    let original = StaticKeypair::generate();
    let phrase = generate_recovery_phrase(&original).unwrap();
    let recovered = recover_from_phrase(&phrase).unwrap();

    assert_eq!(original.public, recovered.public);
    assert_eq!(original.private.as_ref(), recovered.private.as_ref());
}

#[test]
fn test_storage_encryption() {
    let payload = b"secret identity data";
    let passphrase = "correct horse battery staple";

    let save_data = SaveData::encrypt(payload, passphrase).unwrap();

    let decrypted = save_data.decrypt(passphrase).unwrap();
    assert_eq!(payload.as_slice(), decrypted.as_slice());

    // Wrong passphrase
    assert!(save_data.decrypt("wrong password").is_err());
}

#[test]
fn pow_difficulty_counts_leading_zero_bits() {
    let mut hash = [0u8; 32];
    hash[1] = 0x10; // 8 + 3 leading zero bits
    assert!(check_difficulty(&hash, 11));
    assert!(!check_difficulty(&hash, 12));
    assert!(check_difficulty(&[0u8; 32], 256));
    assert!(check_difficulty(&[0xffu8; 32], 0));
    assert!(!check_difficulty(&[0xffu8; 32], 1));
}

#[test]
fn pow_rejects_wrong_hash() {
    let context = b"ctx";
    let (hash, nonce) = generate_pow(context, 4).unwrap();
    let mut other = hash;
    other[31] ^= 1;
    assert!(verify_pow(context, nonce, &other, 4).is_err());
    // A harder difficulty than the token meets is refused.
    assert!(verify_pow(context, nonce, &hash, 200).is_err());
}

#[test]
fn recovery_rejects_garbage_phrase() {
    assert!(recover_from_phrase("not a valid mnemonic phrase at all").is_err());
}

#[test]
fn keypair_from_bytes_is_deterministic() {
    let a = StaticKeypair::from_bytes([7u8; 32]);
    let b = StaticKeypair::from_bytes([7u8; 32]);
    assert_eq!(a.public, b.public);
    assert_eq!(a.private, b.private);
    assert_eq!(a.seed, [7u8; 32]);
    let c = StaticKeypair::from_bytes([8u8; 32]);
    assert_ne!(a.public, c.public);
}

#[test]
fn aead_ciphertext_is_sixteen_bytes_longer_and_bound_to_aad() {
    let key = [1u8; 32];
    let nonce = [2u8; 12];
    let c = encrypt(&key, &nonce, b"abc", b"").unwrap();
    assert_eq!(c.len(), 3 + 16);
    assert!(decrypt(&key, &nonce, &c, b"x").is_err());
    let mut tampered = c.clone();
    tampered[0] ^= 1;
    assert!(decrypt(&key, &nonce, &tampered, b"").is_err());
}
