//! The store of synchronisation groups: which groups each user has, and
//! which group, if any, each device belongs to. A device is in at most one
//! group, and every membership refers to a group that exists.

use vstd::prelude::*;
use crate::error::AppError;
use crate::ordered::enumerates;
use crate::table::{ascending_keys, keys_of, retargeted, rows_of_map, without_value, IdTable};

verus! {

/// What a group store holds, as plain mathematics.
pub ghost struct SyncState {
    /// Each group's id with the id of the user who owns it.
    pub groups: Map<i64, i64>,
    /// Each grouped device's id with the id of its group.
    pub membership: Map<i64, i64>,
    /// The id that the next new group gets.
    pub next_group_id: int,
}

/// The rows can be loaded as a consistent store: groups and memberships are
/// in ascending order of their first parts, every group id is below
/// `next_id`, and every membership is in one of the groups.
pub open spec fn loadable(groups: Seq<(i64, i64)>, members: Seq<(i64, i64)>, next_id: i64) -> bool {
    &&& ascending_keys(groups)
    &&& ascending_keys(members)
    &&& forall|i: int| 0 <= i < groups.len() ==> (#[trigger] groups[i]).0 < next_id
    &&& forall|j: int| 0 <= j < members.len() ==> has_group(groups, (#[trigger] members[j]).1)
}

/// One of the group rows has the id `g`.
pub open spec fn has_group(groups: Seq<(i64, i64)>, g: i64) -> bool {
    exists|i: int| 0 <= i < groups.len() && (#[trigger] groups[i]).0 == g
}

/// The store of synchronisation groups and of the memberships in them.
pub struct DeviceSyncRepository {
    group_rows: IdTable,
    member_rows: IdTable,
    next_id: i64,
}

impl DeviceSyncRepository {
    /// The groups: each group's id with the id of the user who owns it.
    pub closed spec fn groups(&self) -> Map<i64, i64> {
        self.group_rows@
    }

    /// The memberships: each grouped device's id with the id of its group.
    pub closed spec fn membership(&self) -> Map<i64, i64> {
        self.member_rows@
    }

    /// The id that the next new group gets.
    pub closed spec fn next_group_id(&self) -> int {
        self.next_id as int
    }

    /// The stored rows are in order.
    pub closed spec fn rows_wf(&self) -> bool {
        self.group_rows.wf() && self.member_rows.wf()
    }

    /// The store is consistent: group ids are below the next id to be given
    /// out, and every membership refers to an existing group.
    pub open spec fn wf(&self) -> bool {
        &&& self.rows_wf()
        &&& forall|g: i64| self.groups().contains_key(g) ==> g < self.next_group_id()
        &&& forall|d: i64|
            (#[trigger] self.membership().contains_key(d)) ==> self.groups().contains_key(
                self.membership()[d],
            )
    }

    /// What the store holds.
    pub open spec fn state(&self) -> SyncState {
        SyncState {
            groups: self.groups(),
            membership: self.membership(),
            next_group_id: self.next_group_id(),
        }
    }

    /// Both stores hold the same groups, memberships and next id.
    pub open spec fn same_state(&self, other: &DeviceSyncRepository) -> bool {
        &&& self.groups() == other.groups()
        &&& self.membership() == other.membership()
        &&& self.next_group_id() == other.next_group_id()
    }

    proof fn lemma_views(&self)
        ensures
            self.groups() == self.group_rows@,
            self.membership() == self.member_rows@,
            self.next_group_id() == self.next_id,
    {
    }

    /// A consistent store holds finitely many groups and memberships.
    pub proof fn lemma_finite(&self)
        ensures
            self.groups().dom().finite(),
            self.membership().dom().finite(),
    {
        self.group_rows.lemma_finite();
        self.member_rows.lemma_finite();
    }

    /// A store without groups.
    pub fn new() -> (r: DeviceSyncRepository)
        ensures
            r.wf(),
            r.groups() == Map::<i64, i64>::empty(),
            r.membership() == Map::<i64, i64>::empty(),
            r.next_group_id() == 1,
    {
        DeviceSyncRepository { group_rows: IdTable::new(), member_rows: IdTable::new(), next_id: 1 }
    }

    /// Creates an empty group for `user_id` and returns its id, which no
    /// group had before. Fails, changing nothing, when the ids are used up.
    pub fn create_group(&mut self, user_id: i64) -> (r: Result<i64, AppError>)
        requires
            old(self).wf(),
        ensures
            final(self).wf(),
            old(self).next_group_id() < i64::MAX ==> {
                &&& r matches Ok(id)
                &&& id == old(self).next_group_id()
                &&& final(self).groups() == old(self).groups().insert(id, user_id)
                &&& final(self).membership() == old(self).membership()
                &&& final(self).next_group_id() == old(self).next_group_id() + 1
            },
            old(self).next_group_id() >= i64::MAX ==> {
                &&& r matches Err(AppError::Database(msg)) && msg@
                    == "sync group ids are used up"@
                &&& final(self).same_state(old(self))
            },
    {
        if self.next_id == i64::MAX {
            return Err(AppError::Database(String::from_str("sync group ids are used up")));
        }
        let id: i64 = self.next_id;
        proof {
            self.lemma_views();
            assert(!self.groups().contains_key(id));
        }
        self.group_rows.insert(id, user_id);
        self.next_id = id + 1;
        proof {
            self.lemma_views();
            old(self).lemma_views();
        }
        Ok(id)
    }

    /// Puts a device into a group. Fails, changing nothing, when the group
    /// does not exist or the device is already in a group.
    pub fn add_device_to_group(&mut self, group_id: i64, device_id: i64) -> (r: Result<
        (),
        AppError,
    >)
        requires
            old(self).wf(),
        ensures
            final(self).wf(),
            final(self).groups() == old(self).groups(),
            final(self).next_group_id() == old(self).next_group_id(),
            old(self).groups().contains_key(group_id) && !old(self).membership().contains_key(
                device_id,
            ) ==> r is Ok && final(self).membership() == old(self).membership().insert(
                device_id,
                group_id,
            ),
            !(old(self).groups().contains_key(group_id) && !old(self).membership().contains_key(
                device_id,
            )) ==> (r matches Err(AppError::Database(msg)) && msg@ == (if old(
                self,
            ).groups().contains_key(group_id) {
                "device is already in a sync group"@
            } else {
                "sync group does not exist"@
            })) && final(self).membership() == old(self).membership(),
    {
        if self.group_rows.get(group_id).is_none() {
            return Err(AppError::Database(String::from_str("sync group does not exist")));
        }
        if self.member_rows.get(device_id).is_some() {
            return Err(AppError::Database(String::from_str("device is already in a sync group")));
        }
        self.member_rows.insert(device_id, group_id);
        proof {
            self.lemma_views();
            old(self).lemma_views();
        }
        Ok(())
    }

    /// Takes a device out of its group; nothing changes for a device that is
    /// in no group.
    pub fn remove_device_from_group(&mut self, device_id: i64)
        requires
            old(self).wf(),
        ensures
            final(self).wf(),
            final(self).groups() == old(self).groups(),
            final(self).next_group_id() == old(self).next_group_id(),
            final(self).membership() == old(self).membership().remove(device_id),
    {
        self.member_rows.remove(device_id);
        proof {
            self.lemma_views();
            old(self).lemma_views();
        }
    }

    /// The id that the next new group gets.
    pub fn peek_next_group_id(&self) -> (r: i64)
        ensures
            r == self.next_group_id(),
    {
        self.next_id
    }

    /// The group that a device belongs to, if any.
    pub fn get_device_group(&self, device_id: i64) -> (r: Option<i64>)
        requires
            self.wf(),
        ensures
            r == (if self.membership().contains_key(device_id) {
                Some(self.membership()[device_id])
            } else {
                None
            }),
    {
        self.member_rows.get(device_id)
    }

    /// The devices of a group, by ascending id.
    pub fn get_group_devices(&self, group_id: i64) -> (r: Vec<i64>)
        requires
            self.wf(),
        ensures
            enumerates(r@, keys_of(self.membership(), group_id)),
    {
        self.member_rows.keys_with(group_id)
    }

    /// The groups of a user, by ascending id.
    pub fn get_user_groups(&self, user_id: i64) -> (r: Vec<i64>)
        requires
            self.wf(),
        ensures
            enumerates(r@, keys_of(self.groups(), user_id)),
    {
        self.group_rows.keys_with(user_id)
    }

    /// Deletes a group together with the memberships in it.
    pub fn delete_group(&mut self, group_id: i64)
        requires
            old(self).wf(),
        ensures
            final(self).wf(),
            final(self).groups() == old(self).groups().remove(group_id),
            final(self).membership() == without_value(old(self).membership(), group_id),
            final(self).next_group_id() == old(self).next_group_id(),
    {
        self.member_rows.remove_value(group_id);
        self.group_rows.remove(group_id);
        proof {
            self.lemma_views();
            old(self).lemma_views();
        }
    }

    /// Moves every device of group `source_group_id` into group
    /// `target_group_id` and deletes the source group. Fails, changing
    /// nothing, when the target group does not exist.
    pub fn merge_groups(&mut self, target_group_id: i64, source_group_id: i64) -> (r: Result<
        (),
        AppError,
    >)
        requires
            old(self).wf(),
        ensures
            final(self).wf(),
            final(self).next_group_id() == old(self).next_group_id(),
            old(self).groups().contains_key(target_group_id) ==> {
                &&& r is Ok
                &&& final(self).groups() == old(self).groups().remove(source_group_id)
                &&& final(self).membership() == without_value(
                    retargeted(old(self).membership(), source_group_id, target_group_id),
                    source_group_id,
                )
            },
            !old(self).groups().contains_key(target_group_id) ==> {
                &&& r matches Err(AppError::Database(msg)) && msg@
                    == "sync group does not exist"@
                &&& final(self).same_state(old(self))
            },
    {
        if self.group_rows.get(target_group_id).is_none() {
            return Err(AppError::Database(String::from_str("sync group does not exist")));
        }
        self.member_rows.retarget(source_group_id, target_group_id);
        proof {
            self.lemma_views();
            old(self).lemma_views();
        }
        self.delete_group(source_group_id);
        Ok(())
    }

    /// The store that holds the given groups (id and user) and memberships
    /// (device and group), if the rows are in ascending order of their first
    /// parts, every group id is below `next_id`, and every membership is in
    /// one of the groups.
    pub fn from_rows(groups: Vec<(i64, i64)>, members: Vec<(i64, i64)>, next_id: i64) -> (r: Option<
        DeviceSyncRepository,
    >)
        ensures
            match r {
                Some(repo) => {
                    &&& repo.wf()
                    &&& rows_of_map(groups@, repo.groups())
                    &&& rows_of_map(members@, repo.membership())
                    &&& repo.next_group_id() == next_id
                },
                None => !loadable(groups@, members@, next_id),
            },
    {
        let group_rows: IdTable = match IdTable::from_rows(groups) {
            Some(table) => table,
            None => {
                return None;
            },
        };
        let member_rows: IdTable = match IdTable::from_rows(members) {
            Some(table) => table,
            None => {
                return None;
            },
        };
        let group_list: Vec<(i64, i64)> = group_rows.rows();
        let mut i: usize = 0;
        while i < group_list.len()
            invariant
                i <= group_list@.len(),
                rows_of_map(group_list@, group_rows@),
                rows_of_map(groups@, group_rows@),
                forall|j: int| 0 <= j < i ==> (#[trigger] group_list@[j]).0 < next_id,
            decreases group_list@.len() - i,
        {
            if group_list[i].0 >= next_id {
                proof {
                    let g = group_list@[i as int].0;
                    assert(group_rows@.contains_key(g));
                    let c = choose|c: int| 0 <= c < groups@.len() && groups@[c].0 == g;
                    assert(groups@[c].0 >= next_id);
                }
                return None;
            }
            i += 1;
        }
        let member_list: Vec<(i64, i64)> = member_rows.rows();
        let mut k: usize = 0;
        while k < member_list.len()
            invariant
                group_rows.wf(),
                rows_of_map(groups@, group_rows@),
                rows_of_map(member_list@, member_rows@),
                rows_of_map(members@, member_rows@),
                k <= member_list@.len(),
                forall|j: int|
                    0 <= j < k ==> group_rows@.contains_key((#[trigger] member_list@[j]).1),
            decreases member_list@.len() - k,
        {
            if group_rows.get(member_list[k].1).is_none() {
                proof {
                    let d = member_list@[k as int].0;
                    let g = member_list@[k as int].1;
                    assert(member_rows@.contains_key(d));
                    let c = choose|c: int| 0 <= c < members@.len() && members@[c].0 == d;
                    assert(members@[c].1 == g);
                    assert forall|a: int| 0 <= a < groups@.len() implies (#[trigger] groups@[a]).0
                        != g by {
                        assert(group_rows@.contains_key(groups@[a].0));
                    }
                    assert(!has_group(groups@, members@[c].1));
                }
                return None;
            }
            k += 1;
        }
        let repo = DeviceSyncRepository { group_rows, member_rows, next_id };
        proof {
            repo.lemma_views();
            assert forall|g: i64| repo.groups().contains_key(g) implies g < repo.next_group_id() by {
                let c = choose|c: int| 0 <= c < group_list@.len() && group_list@[c].0 == g;
                assert(group_list@[c].0 < next_id);
            }
            assert forall|d: i64| #[trigger] repo.membership().contains_key(d) implies repo.groups().contains_key(
                repo.membership()[d],
            ) by {
                let c = choose|c: int| 0 <= c < member_list@.len() && member_list@[c].0 == d;
                assert(group_rows@.contains_key(member_list@[c].1));
            }
        }
        Some(repo)
    }

    /// The groups, each with its id and the id of its user, by ascending id.
    pub fn group_rows(&self) -> (r: Vec<(i64, i64)>)
        requires
            self.wf(),
        ensures
            rows_of_map(r@, self.groups()),
    {
        self.group_rows.rows()
    }

    /// The memberships, each with the key of the device and the id of its
    /// group, by ascending device key.
    pub fn member_rows(&self) -> (r: Vec<(i64, i64)>)
        requires
            self.wf(),
        ensures
            rows_of_map(r@, self.membership()),
    {
        self.member_rows.rows()
    }
}

} // verus!
