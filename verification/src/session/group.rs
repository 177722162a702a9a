use vstd::prelude::*;
use crate::crypto::hash::{blake2s256, labelled_digest};
use crate::keymap::KeyMap;

verus! {

/// Label of the sender-key chain step.
pub open spec fn group_chain_label() -> Seq<u8> {
    "zero-group-chain"@.map_values(|c: char| c as u8)
}

/// Label of the sender-key message key.
pub open spec fn group_message_label() -> Seq<u8> {
    "zero-group-message"@.map_values(|c: char| c as u8)
}

fn group_chain_label_bytes() -> (v: Vec<u8>)
    ensures
        v@ == group_chain_label(),
{
    let v: Vec<u8> = vec![
        0x7a, 0x65, 0x72, 0x6f, 0x2d, 0x67, 0x72, 0x6f, 0x75, 0x70, 0x2d, 0x63, 0x68, 0x61, 0x69,
        0x6e,
    ];
    proof {
        reveal_strlit("zero-group-chain");
        assert(v@ =~= group_chain_label());
    }
    v
}

fn group_message_label_bytes() -> (v: Vec<u8>)
    ensures
        v@ == group_message_label(),
{
    let v: Vec<u8> = vec![
        0x7a, 0x65, 0x72, 0x6f, 0x2d, 0x67, 0x72, 0x6f, 0x75, 0x70, 0x2d, 0x6d, 0x65, 0x73, 0x73,
        0x61, 0x67, 0x65,
    ];
    proof {
        reveal_strlit("zero-group-message");
        assert(v@ =~= group_message_label());
    }
    v
}

/// A role in a group; earlier roles carry more authority.
#[derive(Debug, Clone, Copy, PartialEq, Eq, Structural, PartialOrd, Ord)]
pub enum GroupRole {
    Founder,
    Admin,
    Moderator,
    Member,
}

/// The position of a role in the order `Founder < Admin < Moderator < Member`.
pub open spec fn role_rank(r: GroupRole) -> nat {
    match r {
        GroupRole::Founder => 0,
        GroupRole::Admin => 1,
        GroupRole::Moderator => 2,
        GroupRole::Member => 3,
    }
}

impl GroupRole {
    /// The role's position in the order `Founder < Admin < Moderator < Member`.
    pub fn rank(&self) -> (r: u8)
        ensures
            r == role_rank(*self),
    {
        match self {
            GroupRole::Founder => 0,
            GroupRole::Admin => 1,
            GroupRole::Moderator => 2,
            GroupRole::Member => 3,
        }
    }
}

/// What the group knows of a member.
#[derive(Debug, Clone, Copy)]
pub struct MemberInfo {
    pub role: GroupRole,
    pub joined_at: u64,
    pub identity_pk: [u8; 32],
}

/// Signal-style Sender Key for a single group member.
/// Each member holds their own chain key; ratcheting it produces per-message keys.
#[derive(Debug, Clone, Copy)]
pub struct SenderKey {
    pub chain_key: [u8; 32],
    pub iteration: u32,
}

/// The chain key that follows `ck` in a sender-key chain.
pub open spec fn sender_next_chain(ck: Seq<u8>) -> Seq<u8> {
    blake2s256(group_chain_label() + ck)
}

/// The message key that sender chain key `ck` yields.
pub open spec fn sender_message_key(ck: Seq<u8>) -> Seq<u8> {
    blake2s256(group_message_label() + ck)
}

impl SenderKey {
    /// A sender key at iteration 0.
    pub fn new(initial_key: [u8; 32]) -> (k: Self)
        ensures
            k.chain_key == initial_key,
            k.iteration == 0,
    {
        SenderKey { chain_key: initial_key, iteration: 0 }
    }

    /// Ratchets the sender key forward, returning a fresh message key.
    /// Compromising a later chain key does not reveal earlier message keys.
    pub fn ratchet(&mut self) -> (msg_key: [u8; 32])
        requires
            old(self).iteration < u32::MAX,
        ensures
            msg_key@ == sender_message_key(old(self).chain_key@),
            final(self).chain_key@ == sender_next_chain(old(self).chain_key@),
            final(self).iteration == old(self).iteration + 1,
    {
        let next_chain = labelled_digest(group_chain_label_bytes(), &self.chain_key);
        let msg_key = labelled_digest(group_message_label_bytes(), &self.chain_key);
        self.chain_key = next_chain;
        self.iteration = self.iteration + 1;
        msg_key
    }
}

/// Manages a Signal-style group chat session with per-member Sender Keys.
pub struct GroupSession {
    pub group_id: [u8; 32],
    pub my_role: GroupRole,
    pub members: KeyMap<MemberInfo, 32>,
    /// Our own sender key (used for outgoing messages)
    pub my_sender_key: SenderKey,
    /// Sender keys received from each peer (used to decrypt their messages)
    pub peer_sender_keys: KeyMap<SenderKey, 32>,
    /// Admin and founder public keys (for role enforcement)
    pub admin_keys: Vec<[u8; 32]>,
}

impl GroupSession {
    /// A group with no members and no peer keys yet.
    pub fn new(group_id: [u8; 32], my_role: GroupRole, initial_key: [u8; 32]) -> (g: Self)
        ensures
            g.group_id == group_id,
            g.my_role == my_role,
            g.members@ == Map::<Seq<u8>, MemberInfo>::empty(),
            g.my_sender_key.chain_key == initial_key,
            g.my_sender_key.iteration == 0,
            g.peer_sender_keys@ == Map::<Seq<u8>, SenderKey>::empty(),
            g.admin_keys@.len() == 0,
    {
        GroupSession {
            group_id,
            my_role,
            members: KeyMap::new(),
            my_sender_key: SenderKey::new(initial_key),
            peer_sender_keys: KeyMap::new(),
            admin_keys: Vec::new(),
        }
    }

    /// Adds a member to the group. Only Founders and Admins can perform this
    /// action, and none can grant a role above their own.
    pub fn add_member(&mut self, identity_pk: [u8; 32], role: GroupRole, joined_at: u64) -> (r: Result<(), &'static str>)
        ensures
            role_rank(old(self).my_role) > 1 ==> r == Err::<(), &'static str>("Insufficient permissions to add members"),
            role_rank(old(self).my_role) <= 1 && role_rank(role) < role_rank(old(self).my_role)
                ==> r == Err::<(), &'static str>("Cannot grant a role above your own"),
            r is Ok <==> role_rank(old(self).my_role) <= 1 && role_rank(role) >= role_rank(old(self).my_role),
            r is Ok ==> final(self).members@ == old(self).members@.insert(identity_pk@,
                MemberInfo { role, joined_at, identity_pk }),
            r is Err ==> final(self).members@ == old(self).members@,
            final(self).group_id == old(self).group_id,
            final(self).my_role == old(self).my_role,
            final(self).peer_sender_keys@ == old(self).peer_sender_keys@,
            final(self).my_sender_key == old(self).my_sender_key,
            final(self).admin_keys@ == old(self).admin_keys@,
    {
        if self.my_role.rank() > 1 {
            return Err("Insufficient permissions to add members");
        }
        if role.rank() < self.my_role.rank() {
            return Err("Cannot grant a role above your own");
        }
        self.members.insert(identity_pk, MemberInfo { role, joined_at, identity_pk });
        Ok(())
    }

    /// Registers a peer's sender key so we can decrypt their messages.
    pub fn register_peer_sender_key(&mut self, peer_pk: [u8; 32], key: [u8; 32])
        ensures
            final(self).peer_sender_keys@ == old(self).peer_sender_keys@.insert(peer_pk@, SenderKey { chain_key: key, iteration: 0 }),
            final(self).members@ == old(self).members@,
            final(self).my_sender_key == old(self).my_sender_key,
            final(self).group_id == old(self).group_id,
            final(self).my_role == old(self).my_role,
            final(self).admin_keys@ == old(self).admin_keys@,
    {
        self.peer_sender_keys.insert(peer_pk, SenderKey::new(key));
    }

    /// Ratchets our outgoing chain and returns the message key for the next message.
    pub fn next_outgoing_key(&mut self) -> (k: [u8; 32])
        requires
            old(self).my_sender_key.iteration < u32::MAX,
        ensures
            k@ == sender_message_key(old(self).my_sender_key.chain_key@),
            final(self).my_sender_key.chain_key@ == sender_next_chain(old(self).my_sender_key.chain_key@),
            final(self).my_sender_key.iteration == old(self).my_sender_key.iteration + 1,
            final(self).members@ == old(self).members@,
            final(self).peer_sender_keys@ == old(self).peer_sender_keys@,
            final(self).group_id == old(self).group_id,
            final(self).my_role == old(self).my_role,
            final(self).admin_keys@ == old(self).admin_keys@,
    {
        self.my_sender_key.ratchet()
    }

    /// Ratchets a peer's chain to get the decryption key for their next
    /// message; `None` for a peer whose key was never registered.
    pub fn next_incoming_key(&mut self, peer_pk: &[u8; 32]) -> (k: Option<[u8; 32]>)
        requires
            old(self).peer_sender_keys@.contains_key(peer_pk@) ==> old(self).peer_sender_keys@[peer_pk@].iteration < u32::MAX,
        ensures
            match k {
                Some(key) => {
                    let sk = old(self).peer_sender_keys@[peer_pk@];
                    &&& old(self).peer_sender_keys@.contains_key(peer_pk@)
                    &&& key@ == sender_message_key(sk.chain_key@)
                    &&& final(self).peer_sender_keys@.contains_key(peer_pk@)
                    &&& final(self).peer_sender_keys@[peer_pk@].chain_key@ == sender_next_chain(sk.chain_key@)
                    &&& final(self).peer_sender_keys@[peer_pk@].iteration == sk.iteration + 1
                    &&& final(self).peer_sender_keys@.remove(peer_pk@) == old(self).peer_sender_keys@.remove(peer_pk@)
                },
                None => !old(self).peer_sender_keys@.contains_key(peer_pk@)
                    && final(self).peer_sender_keys@ == old(self).peer_sender_keys@,
            },
            final(self).members@ == old(self).members@,
            final(self).my_sender_key == old(self).my_sender_key,
            final(self).group_id == old(self).group_id,
            final(self).my_role == old(self).my_role,
            final(self).admin_keys@ == old(self).admin_keys@,
    {
        match self.peer_sender_keys.remove(peer_pk) {
            Some(sk) => {
                let mut sk = sk;
                let key = sk.ratchet();
                let ghost before = self.peer_sender_keys@;
                self.peer_sender_keys.insert(*peer_pk, sk);
                proof {
                    assert(self.peer_sender_keys@.remove(peer_pk@) =~= before);
                }
                Some(key)
            },
            None => None,
        }
    }

    /// Removes a member and their sender key. Only Founders and Admins may,
    /// and only members of strictly lower role.
    pub fn remove_member(&mut self, identity_pk: &[u8; 32]) -> (r: Result<(), &'static str>)
        ensures
            role_rank(old(self).my_role) > 1 ==> r == Err::<(), &'static str>("Insufficient permissions to remove members"),
            role_rank(old(self).my_role) <= 1 && !old(self).members@.contains_key(identity_pk@)
                ==> r == Err::<(), &'static str>("Member not found"),
            role_rank(old(self).my_role) <= 1 && old(self).members@.contains_key(identity_pk@)
                && role_rank(old(self).members@[identity_pk@].role) <= role_rank(old(self).my_role)
                ==> r == Err::<(), &'static str>("Cannot remove a member with equal or higher role"),
            r is Ok <==> role_rank(old(self).my_role) <= 1 && old(self).members@.contains_key(identity_pk@)
                && role_rank(old(self).members@[identity_pk@].role) > role_rank(old(self).my_role),
            r is Ok ==> final(self).members@ == old(self).members@.remove(identity_pk@)
                && final(self).peer_sender_keys@ == old(self).peer_sender_keys@.remove(identity_pk@),
            r is Err ==> final(self).members@ == old(self).members@
                && final(self).peer_sender_keys@ == old(self).peer_sender_keys@,
            final(self).my_sender_key == old(self).my_sender_key,
            final(self).group_id == old(self).group_id,
            final(self).my_role == old(self).my_role,
            final(self).admin_keys@ == old(self).admin_keys@,
    {
        if self.my_role.rank() > 1 {
            return Err("Insufficient permissions to remove members");
        }
        match self.members.get(identity_pk) {
            Some(target) => {
                if target.role.rank() <= self.my_role.rank() {
                    return Err("Cannot remove a member with equal or higher role");
                }
            },
            None => {
                return Err("Member not found");
            },
        }
        self.members.remove(identity_pk);
        self.peer_sender_keys.remove(identity_pk);
        Ok(())
    }
}

} // verus!
