use vstd::prelude::*;
use crate::crypto::hash::{blake2s256, labelled_digest};

verus! {

/// Label of the chain-key step.
pub open spec fn chain_label() -> Seq<u8> {
    "zero-ratchet-chain"@.map_values(|c: char| c as u8)
}

/// Label of the message key of the sending direction.
pub open spec fn send_message_label() -> Seq<u8> {
    "zero-ratchet-send-message"@.map_values(|c: char| c as u8)
}

/// Label of the message key of the receiving direction.
pub open spec fn recv_message_label() -> Seq<u8> {
    "zero-ratchet-recv-message"@.map_values(|c: char| c as u8)
}

/// The chain key that follows `ck`.
pub open spec fn next_chain_key(ck: Seq<u8>) -> Seq<u8> {
    blake2s256(chain_label() + ck)
}

/// The message key that chain key `ck` yields in one direction.
pub open spec fn message_key(ck: Seq<u8>, sending: bool) -> Seq<u8> {
    blake2s256((if sending { send_message_label() } else { recv_message_label() }) + ck)
}

/// The chain key after `n` steps from `ck`.
pub open spec fn chain_key_after(ck: Seq<u8>, n: nat) -> Seq<u8>
    decreases n,
{
    if n == 0 {
        ck
    } else {
        next_chain_key(chain_key_after(ck, (n - 1) as nat))
    }
}

fn chain_label_bytes() -> (v: Vec<u8>)
    ensures
        v@ == chain_label(),
{
    let v: Vec<u8> = vec![
        0x7a, 0x65, 0x72, 0x6f, 0x2d, 0x72, 0x61, 0x74, 0x63, 0x68, 0x65, 0x74, 0x2d, 0x63, 0x68,
        0x61, 0x69, 0x6e,
    ];
    proof {
        reveal_strlit("zero-ratchet-chain");
        assert(v@ =~= chain_label());
    }
    v
}

fn message_label_bytes(sending: bool) -> (v: Vec<u8>)
    ensures
        v@ == if sending { send_message_label() } else { recv_message_label() },
{
    if sending {
        let v: Vec<u8> = vec![
            0x7a, 0x65, 0x72, 0x6f, 0x2d, 0x72, 0x61, 0x74, 0x63, 0x68, 0x65, 0x74, 0x2d, 0x73,
            0x65, 0x6e, 0x64, 0x2d, 0x6d, 0x65, 0x73, 0x73, 0x61, 0x67, 0x65,
        ];
        proof {
            reveal_strlit("zero-ratchet-send-message");
            assert(v@ =~= send_message_label());
        }
        v
    } else {
        let v: Vec<u8> = vec![
            0x7a, 0x65, 0x72, 0x6f, 0x2d, 0x72, 0x61, 0x74, 0x63, 0x68, 0x65, 0x74, 0x2d, 0x72,
            0x65, 0x63, 0x76, 0x2d, 0x6d, 0x65, 0x73, 0x73, 0x61, 0x67, 0x65,
        ];
        proof {
            reveal_strlit("zero-ratchet-recv-message");
            assert(v@ =~= recv_message_label());
        }
        v
    }
}

/// The Signal Double Ratchet Algorithm state manager.
/// Uses BLAKE2s256 as the underlying KDF for chain key derivation.
pub struct DoubleRatchetState {
    pub root_key: [u8; 32],
    pub send_chain_key: [u8; 32],
    pub recv_chain_key: [u8; 32],
}

impl DoubleRatchetState {
    /// Both chains start from the shared secret.
    pub fn new(shared_secret: [u8; 32]) -> (s: Self)
        ensures
            s.root_key == shared_secret,
            s.send_chain_key == shared_secret,
            s.recv_chain_key == shared_secret,
    {
        DoubleRatchetState {
            root_key: shared_secret,
            send_chain_key: shared_secret,
            recv_chain_key: shared_secret,
        }
    }

    /// Ratchets the sending chain and returns the next message key.
    pub fn ratchet_send(&mut self) -> (msg_key: [u8; 32])
        ensures
            msg_key@ == message_key(old(self).send_chain_key@, true),
            final(self).send_chain_key@ == next_chain_key(old(self).send_chain_key@),
            final(self).recv_chain_key == old(self).recv_chain_key,
            final(self).root_key == old(self).root_key,
    {
        let (next_chain, msg_key) = Self::kdf_ratchet(&self.send_chain_key, true);
        self.send_chain_key = next_chain;
        msg_key
    }

    /// Ratchets the receiving chain and returns the next message key.
    pub fn ratchet_recv(&mut self) -> (msg_key: [u8; 32])
        ensures
            msg_key@ == message_key(old(self).recv_chain_key@, false),
            final(self).recv_chain_key@ == next_chain_key(old(self).recv_chain_key@),
            final(self).send_chain_key == old(self).send_chain_key,
            final(self).root_key == old(self).root_key,
    {
        let (next_chain, msg_key) = Self::kdf_ratchet(&self.recv_chain_key, false);
        self.recv_chain_key = next_chain;
        msg_key
    }

    /// The symmetric-key ratchet step: (next chain key, message key), each a
    /// domain-separated BLAKE2s digest of the chain key.
    fn kdf_ratchet(chain_key: &[u8; 32], sending: bool) -> (r: ([u8; 32], [u8; 32]))
        ensures
            r.0@ == next_chain_key(chain_key@),
            r.1@ == message_key(chain_key@, sending),
    {
        let next_chain = labelled_digest(chain_label_bytes(), chain_key);
        let msg_key = labelled_digest(message_label_bytes(sending), chain_key);
        (next_chain, msg_key)
    }
}

/// Two states that share a sending chain key produce the same next message
/// key and the same next chain key; the receiving chain plays no part.
pub proof fn lemma_send_depends_only_on_send_chain(a: DoubleRatchetState, b: DoubleRatchetState)
    requires
        a.send_chain_key == b.send_chain_key,
    ensures
        message_key(a.send_chain_key@, true) == message_key(b.send_chain_key@, true),
        next_chain_key(a.send_chain_key@) == next_chain_key(b.send_chain_key@),
{
}

/// After `n` steps the chain key is `chain_key_after(ck, n)`; one more step
/// gives the next one.
pub proof fn lemma_chain_key_step(ck: Seq<u8>, n: nat)
    ensures
        next_chain_key(chain_key_after(ck, n)) == chain_key_after(ck, n + 1),
{
}

} // verus!
