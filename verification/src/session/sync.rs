use vstd::prelude::*;

verus! {

/// The state diff that one device sends to another of the same user.
#[derive(Debug)]
pub struct DeviceSyncBlob {
    pub message_history_patch: Vec<u8>,
    pub contact_list_patch: Vec<u8>,
    pub group_state_patch: Vec<u8>,
}

/// Prepares state diffs for a user's linked devices.
pub struct MultiDeviceSyncManager {}

impl MultiDeviceSyncManager {
    /// A manager with nothing to sync yet.
    pub fn new() -> (m: Self) {
        MultiDeviceSyncManager {}
    }

    /// Prepares the state diff to be sent via offline storage to a secondary
    /// linked device. With no tracked state, every patch is empty.
    pub fn prepare_sync_blob(&self) -> (b: DeviceSyncBlob)
        ensures
            b.message_history_patch@.len() == 0,
            b.contact_list_patch@.len() == 0,
            b.group_state_patch@.len() == 0,
    {
        DeviceSyncBlob {
            message_history_patch: Vec::new(),
            contact_list_patch: Vec::new(),
            group_state_patch: Vec::new(),
        }
    }
}

} // verus!
