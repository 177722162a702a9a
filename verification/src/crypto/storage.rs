use vstd::prelude::*;
use crate::crypto::aead::{self, chacha20poly1305_open, chacha20poly1305_seal, aead_len_ok};
use crate::crypto::error::ZeroError;
use crate::random::fill_os_random;

verus! {

/// The 32-byte Argon2id key (version 0x13) that the `argon2` crate derives
/// from a passphrase (as UTF-8) and a salt with memory cost `m` KiB, `t`
/// passes and `p` lanes.
pub uninterp spec fn argon2id_key_spec(passphrase: Seq<char>, salt: Seq<u8>, m: u32, t: u32, p: u32) -> Seq<u8>;

/// Memory cost of the storage key derivation, in KiB.
pub const STORAGE_M_COST: u32 = 65536;

/// Passes of the storage key derivation.
pub const STORAGE_T_COST: u32 = 3;

/// Lanes of the storage key derivation.
pub const STORAGE_P_COST: u32 = 4;

/// The key that sealed storage derives from a passphrase and a salt.
pub open spec fn argon2id_storage_key(passphrase: Seq<char>, salt: Seq<u8>) -> Seq<u8> {
    argon2id_key_spec(passphrase, salt, STORAGE_M_COST, STORAGE_T_COST, STORAGE_P_COST)
}

/// Derives a 32-byte key with `argon2::Argon2::new(Argon2id, V0x13,
/// Params::new(m_cost, t_cost, p_cost, Some(32)))` and `hash_password_into`
/// over the passphrase's UTF-8 bytes. The key is named `argon2id_key_spec`.
/// The crate's source fails only for parameters or lengths outside its
/// limits; the storage parameters (65536 KiB, 3 passes, 4 lanes) with the
/// 32-byte salt and output are inside them, and the password limit is
/// 2^32 - 1 bytes, which no passphrase of at most 2^30 - 1 characters
/// exceeds. Which other parameters are accepted is not stated.
#[verifier::external_body]
fn argon2id_key(passphrase: &str, salt: &[u8; 32], m_cost: u32, t_cost: u32, p_cost: u32) -> (key: Option<[u8; 32]>)
    ensures
        m_cost == STORAGE_M_COST && t_cost == STORAGE_T_COST && p_cost == STORAGE_P_COST
            && passphrase@.len() <= 0x3FFF_FFFF ==> key is Some,
        key matches Some(k) ==> k@ == argon2id_key_spec(passphrase@, salt@, m_cost, t_cost, p_cost),
{
    let params = match argon2::Params::new(m_cost, t_cost, p_cost, Some(32)) {
        Ok(p) => p,
        Err(_) => return None,
    };
    let mut output = [0u8; 32];
    match argon2::Argon2::new(argon2::Algorithm::Argon2id, argon2::Version::V0x13, params)
        .hash_password_into(passphrase.as_bytes(), salt, &mut output) {
        Ok(()) => Some(output),
        Err(_) => None,
    }
}

/// Derives a 32-byte encryption key from user passphrase using Argon2id.
pub fn derive_storage_key(passphrase: &str, salt: &[u8; 32]) -> (res: Result<[u8; 32], ZeroError>)
    ensures
        passphrase@.len() <= 0x3FFF_FFFF ==> res is Ok,
        res matches Ok(k) ==> k@ == argon2id_storage_key(passphrase@, salt@),
        res matches Err(e) ==> e is StorageError,
{
    match argon2id_key(passphrase, salt, STORAGE_M_COST, STORAGE_T_COST, STORAGE_P_COST) {
        Some(k) => Ok(k),
        None => Err(ZeroError::StorageError),
    }
}

/// A payload sealed under a passphrase: the Argon2id salt, the AEAD nonce and
/// the ChaCha20-Poly1305 ciphertext.
#[derive(Debug)]
pub struct SaveData {
    pub salt: [u8; 32],
    pub nonce: [u8; 12],
    pub ciphertext: Vec<u8>,
}

impl SaveData {
    /// Encrypts a payload into SaveData using a passphrase.
    ///
    /// A fresh random salt and nonce are drawn; the ciphertext seals the
    /// payload (without associated data) under the key derived from the
    /// passphrase and that salt.
    pub fn encrypt(payload: &[u8], passphrase: &str) -> (res: Result<Self, ZeroError>)
        ensures
            passphrase@.len() <= 0x3FFF_FFFF && aead_len_ok(payload@.len()) ==> res is Ok,
            res matches Ok(sd) ==> sd.ciphertext@ == chacha20poly1305_seal(
                argon2id_storage_key(passphrase@, sd.salt@), sd.nonce@, payload@, Seq::empty())
                && chacha20poly1305_open(argon2id_storage_key(passphrase@, sd.salt@), sd.nonce@,
                    sd.ciphertext@, Seq::empty()) == Some(payload@),
            res matches Err(e) ==> (e is StorageError || e is EncryptionError),
    {
        let mut salt = [0u8; 32];
        fill_os_random(&mut salt);
        let mut nonce = [0u8; 12];
        fill_os_random(&mut nonce);
        let key = derive_storage_key(passphrase, &salt)?;
        let empty: [u8; 0] = [];
        assert(empty@ =~= Seq::<u8>::empty());
        let ciphertext = aead::encrypt(&key, &nonce, payload, &empty)?;
        Ok(SaveData { salt, nonce, ciphertext })
    }

    /// Decrypts the SaveData payload using a passphrase.
    pub fn decrypt(&self, passphrase: &str) -> (res: Result<Vec<u8>, ZeroError>)
        ensures
            passphrase@.len() <= 0x3FFF_FFFF ==> (res is Ok <==> chacha20poly1305_open(
                argon2id_storage_key(passphrase@, self.salt@), self.nonce@, self.ciphertext@,
                Seq::empty()) is Some),
            res matches Ok(p) ==> chacha20poly1305_open(argon2id_storage_key(passphrase@, self.salt@),
                self.nonce@, self.ciphertext@, Seq::empty()) == Some(p@),
            res matches Err(e) ==> e is StorageError,
    {
        let key = derive_storage_key(passphrase, &self.salt)?;
        let empty: [u8; 0] = [];
        assert(empty@ =~= Seq::<u8>::empty());
        match aead::decrypt(&key, &self.nonce, self.ciphertext.as_slice(), &empty) {
            Ok(p) => Ok(p),
            Err(_) => Err(ZeroError::StorageError),
        }
    }
}

/// Sealed storage opens with the passphrase that sealed it: for any
/// `SaveData` produced by `encrypt` from a payload and a passphrase,
/// `decrypt` with the same passphrase succeeds and returns the payload.
pub proof fn lemma_storage_roundtrip(payload: Seq<u8>, passphrase: Seq<char>, sealed: SaveData)
    requires
        passphrase.len() <= 0x3FFF_FFFF,
        chacha20poly1305_open(argon2id_storage_key(passphrase, sealed.salt@), sealed.nonce@,
            sealed.ciphertext@, Seq::empty()) == Some(payload),
    ensures
        chacha20poly1305_open(argon2id_storage_key(passphrase, sealed.salt@), sealed.nonce@,
            sealed.ciphertext@, Seq::empty()) is Some,
        chacha20poly1305_open(argon2id_storage_key(passphrase, sealed.salt@), sealed.nonce@,
            sealed.ciphertext@, Seq::empty()).unwrap() == payload,
{
}

} // verus!
