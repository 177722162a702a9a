use vstd::prelude::*;
use crate::bytes::{lemma_u64_le_injective, u64_from_le_slice, u64_le, u64_to_le_bytes};
use crate::wire::{bytes_wire, lemma_prefix_parts, push_bytes, read_bytes};
use crate::crypto::aead::{chacha20poly1305_open, chacha20poly1305_seal, decrypt, encrypt, aead_len_ok};
use crate::crypto::error::ZeroError;
use crate::session::lossless::LosslessQueue;
use crate::session::ratchet::{message_key, next_chain_key, DoubleRatchetState};

verus! {

/// A message of a friend session as it travels.
#[derive(Debug)]
pub struct FriendMessage {
    pub sequence_number: u64,
    pub ciphertext: Vec<u8>,
}

/// The AEAD nonce of message number `n`: its eight little-endian bytes,
/// then four zero bytes.
pub open spec fn counter_nonce(n: u64) -> Seq<u8> {
    u64_le(n) + seq![0u8, 0u8, 0u8, 0u8]
}

/// Different message numbers give different nonces, so within a session
/// no nonce is used twice with the same message key.
pub proof fn lemma_counter_nonces_distinct(a: u64, b: u64)
    requires
        a != b,
    ensures
        counter_nonce(a) != counter_nonce(b),
{
    if counter_nonce(a) == counter_nonce(b) {
        assert(counter_nonce(a).subrange(0, 8) =~= u64_le(a));
        assert(counter_nonce(b).subrange(0, 8) =~= u64_le(b));
        lemma_u64_le_injective(a, b);
    }
}

/// Builds the nonce of message number `n`.
pub fn make_counter_nonce(n: u64) -> (nonce: [u8; 12])
    ensures
        nonce@ == counter_nonce(n),
{
    let b = crate::bytes::u64_to_le_bytes(n);
    let nonce: [u8; 12] = [b[0], b[1], b[2], b[3], b[4], b[5], b[6], b[7], 0, 0, 0, 0];
    assert(nonce@ =~= counter_nonce(n));
    nonce
}

/// The bytes of a friend message: its sequence number (eight bytes, little
/// endian), then the ciphertext's length (the same) and the ciphertext.
pub open spec fn friend_message_wire(m: FriendMessage) -> Seq<u8> {
    u64_le(m.sequence_number) + bytes_wire(m.ciphertext@)
}

/// Serialises a friend message.
pub fn encode_friend_message(m: &FriendMessage) -> (out: Vec<u8>)
    ensures
        out@ == friend_message_wire(*m),
{
    let seq = u64_to_le_bytes(m.sequence_number);
    let mut out: Vec<u8> = Vec::new();
    out.extend_from_slice(&seq);
    push_bytes(&mut out, m.ciphertext.as_slice());
    assert(out@ =~= friend_message_wire(*m));
    out
}

/// Reads a friend message from the start of `s`; `None` when no friend
/// message's bytes begin `s`.
pub fn decode_friend_message(s: &[u8]) -> (r: Option<FriendMessage>)
    ensures
        match r {
            Some(m) => friend_message_wire(m).is_prefix_of(s@),
            None => forall|m: FriendMessage| !(#[trigger] friend_message_wire(m)).is_prefix_of(s@),
        },
{
    if s.len() < 8 {
        return None;
    }
    let sequence_number = u64_from_le_slice(s, 0);
    match read_bytes(s, 8) {
        Some((ciphertext, end)) => {
            let m = FriendMessage { sequence_number, ciphertext };
            proof {
                assert(s@.subrange(0, end as int) =~= friend_message_wire(m));
            }
            Some(m)
        },
        None => {
            proof {
                assert forall|m: FriendMessage| !(#[trigger] friend_message_wire(m)).is_prefix_of(s@) by {
                    if friend_message_wire(m).is_prefix_of(s@) {
                        lemma_prefix_parts(u64_le(m.sequence_number), bytes_wire(m.ciphertext@), s@);
                        assert(m.ciphertext@.len() <= u64::MAX);
                    }
                }
            }
            None
        },
    }
}

/// Two friend messages whose bytes both begin `s` are the same message:
/// the format is prefix-free, so a reader recovers exactly what was written.
pub proof fn lemma_friend_message_unique(a: FriendMessage, b: FriendMessage, s: Seq<u8>)
    requires
        friend_message_wire(a).is_prefix_of(s),
        friend_message_wire(b).is_prefix_of(s),
        a.ciphertext@.len() <= u64::MAX,
        b.ciphertext@.len() <= u64::MAX,
    ensures
        a.sequence_number == b.sequence_number,
        a.ciphertext@ == b.ciphertext@,
{
    lemma_prefix_parts(u64_le(a.sequence_number), bytes_wire(a.ciphertext@), s);
    lemma_prefix_parts(u64_le(b.sequence_number), bytes_wire(b.ciphertext@), s);
    assert(u64_le(a.sequence_number) =~= s.subrange(0, 8));
    assert(u64_le(b.sequence_number) =~= s.subrange(0, 8));
    lemma_u64_le_injective(a.sequence_number, b.sequence_number);
    crate::wire::lemma_bytes_wire_unique(a.ciphertext@, b.ciphertext@, s.skip(8));
}

/// A fully established end-to-end encrypted session with a friend.
pub struct FriendSession {
    /// Outer Noise IK channel transport state
    pub noise_transport: snow::TransportState,
    /// Inner message-level double ratchet for deniable, forward-secret messaging
    pub ratchet: DoubleRatchetState,
    pub send_counter: u64,
    pub recv_counter: u64,
    /// Handles retransmissions and ACKs
    pub lossless_queue: LosslessQueue,
}

impl FriendSession {
    /// A session over an established channel, its ratchet seeded with the secret.
    pub fn new(noise_transport: snow::TransportState, ratchet_secret: [u8; 32]) -> (s: Self)
        ensures
            s.ratchet.root_key == ratchet_secret,
            s.ratchet.send_chain_key == ratchet_secret,
            s.ratchet.recv_chain_key == ratchet_secret,
            s.send_counter == 0,
            s.recv_counter == 0,
            s.lossless_queue.next_send_seq == 0,
            s.lossless_queue.next_recv_seq == 0,
    {
        FriendSession {
            noise_transport,
            ratchet: DoubleRatchetState::new(ratchet_secret),
            send_counter: 0,
            recv_counter: 0,
            lossless_queue: LosslessQueue::new(),
        }
    }

    /// Encrypts a message under the next sending message key, with the send
    /// counter as nonce, so no (key, nonce) pair repeats in the session.
    /// The ratchet advances even when encryption fails.
    pub fn encrypt_message(&mut self, plaintext: &[u8]) -> (r: Result<FriendMessage, ZeroError>)
        requires
            old(self).send_counter < u64::MAX,
        ensures
            final(self).ratchet.send_chain_key@ == next_chain_key(old(self).ratchet.send_chain_key@),
            final(self).ratchet.recv_chain_key == old(self).ratchet.recv_chain_key,
            final(self).recv_counter == old(self).recv_counter,
            r is Ok <==> aead_len_ok(plaintext@.len()),
            r matches Ok(m) ==> m.sequence_number == old(self).send_counter
                && m.ciphertext@ == chacha20poly1305_seal(message_key(old(self).ratchet.send_chain_key@, true),
                    counter_nonce(old(self).send_counter), plaintext@, Seq::<u8>::empty())
                && final(self).send_counter == old(self).send_counter + 1,
            r matches Err(e) ==> e is EncryptionError && final(self).send_counter == old(self).send_counter,
    {
        let msg_key = self.ratchet.ratchet_send();
        let nonce = make_counter_nonce(self.send_counter);
        let empty: [u8; 0] = [];
        assert(empty@ =~= Seq::<u8>::empty());
        let ciphertext = encrypt(&msg_key, &nonce, plaintext, &empty)?;
        let msg = FriendMessage { sequence_number: self.send_counter, ciphertext };
        self.send_counter = self.send_counter + 1;
        Ok(msg)
    }

    /// Decrypts a message under the next receiving message key, with the
    /// nonce rebuilt from its sequence number. The ratchet advances even
    /// when decryption fails.
    pub fn decrypt_message(&mut self, msg: &FriendMessage) -> (r: Result<Vec<u8>, ZeroError>)
        requires
            msg.sequence_number < u64::MAX,
        ensures
            final(self).ratchet.recv_chain_key@ == next_chain_key(old(self).ratchet.recv_chain_key@),
            final(self).ratchet.send_chain_key == old(self).ratchet.send_chain_key,
            final(self).send_counter == old(self).send_counter,
            ({
                let opened = chacha20poly1305_open(message_key(old(self).ratchet.recv_chain_key@, false),
                    counter_nonce(msg.sequence_number), msg.ciphertext@, Seq::<u8>::empty());
                &&& r is Ok <==> opened is Some
                &&& r matches Ok(p) ==> opened == Some(p@) && final(self).recv_counter == msg.sequence_number + 1
                &&& r matches Err(e) ==> e is DecryptionError && final(self).recv_counter == old(self).recv_counter
            }),
    {
        let msg_key = self.ratchet.ratchet_recv();
        let nonce = make_counter_nonce(msg.sequence_number);
        let empty: [u8; 0] = [];
        assert(empty@ =~= Seq::<u8>::empty());
        let plaintext = decrypt(&msg_key, &nonce, msg.ciphertext.as_slice(), &empty)?;
        self.recv_counter = msg.sequence_number + 1;
        Ok(plaintext)
    }
}

} // verus!
