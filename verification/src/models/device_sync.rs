use vstd::prelude::*;

verus! {

/// A synchronisation group of one user.
#[derive(Debug, Clone, Copy)]
pub struct DeviceSyncGroup {
    pub id: i64,
    pub user_id: i64,
    pub created_at: i64,
}

/// The membership of one device in one synchronisation group.
#[derive(Debug, Clone, Copy)]
pub struct DeviceSyncMember {
    pub id: i64,
    pub sync_group_id: i64,
    pub device_id: i64,
    pub created_at: i64,
}

/// What a client is told about a user's devices: the groups of two or more
/// devices that are kept in step, and the devices that are in no such group.
#[derive(Debug)]
pub struct DeviceSyncStatus {
    pub synchronized: Vec<Vec<String>>,
    pub not_synchronized: Vec<String>,
}

/// A client's request to change the grouping: each entry of `synchronize`
/// names devices to be put into one group, and `stop_synchronize` names
/// devices to be taken out of their group.
#[derive(Debug)]
pub struct DeviceSyncRequest {
    pub synchronize: Vec<Vec<String>>,
    pub stop_synchronize: Vec<String>,
}

} // verus!
