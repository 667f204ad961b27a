//! The directory of devices. Each device has a key of its own, and a name
//! that is unique among the devices of its user.

use vstd::prelude::*;
use crate::error::AppError;
use crate::models::Device;

verus! {

/// Row `i` is the device that `user` calls `name`.
pub open spec fn is_named(rows: Seq<Device>, user: i64, name: Seq<char>, i: int) -> bool {
    0 <= i < rows.len() && rows[i].user_id == user && rows[i].device_id@ == name
}

/// The device that `user` calls `name`, if there is one.
pub open spec fn find_named(rows: Seq<Device>, user: i64, name: Seq<char>) -> Option<Device> {
    if exists|i: int| is_named(rows, user, name, i) {
        Some(rows[choose|i: int| is_named(rows, user, name, i)])
    } else {
        None
    }
}

/// Row `i` is the device with key `id`.
pub open spec fn has_id(rows: Seq<Device>, id: i64, i: int) -> bool {
    0 <= i < rows.len() && rows[i].id == id
}

/// The device with key `id`, if there is one.
pub open spec fn find_id(rows: Seq<Device>, id: i64) -> Option<Device> {
    if exists|i: int| has_id(rows, id, i) {
        Some(rows[choose|i: int| has_id(rows, id, i)])
    } else {
        None
    }
}

/// The devices of `user`, the most recently registered first.
pub open spec fn devices_of(rows: Seq<Device>, user: i64) -> Seq<Device>
    decreases rows.len(),
{
    if rows.len() == 0 {
        Seq::empty()
    } else if rows.last().user_id == user {
        seq![rows.last()] + devices_of(rows.drop_last(), user)
    } else {
        devices_of(rows.drop_last(), user)
    }
}

/// The rows of a consistent directory: keys ascend in the order of
/// registration, and no user has two devices of one name.
pub open spec fn rows_wf(rows: Seq<Device>) -> bool {
    &&& forall|i: int, j: int| 0 <= i < j < rows.len() ==> rows[i].id < rows[j].id
    &&& forall|i: int, j: int|
        0 <= i < j < rows.len() ==> !(rows[i].user_id == rows[j].user_id && rows[i].device_id@
            == rows[j].device_id@)
}

/// In a consistent directory a name leads to the one row that bears it.
pub proof fn lemma_find_named(rows: Seq<Device>, user: i64, name: Seq<char>, i: int)
    requires
        rows_wf(rows),
        is_named(rows, user, name, i),
    ensures
        find_named(rows, user, name) == Some(rows[i]),
{
    let c = choose|c: int| is_named(rows, user, name, c);
    if c < i {
    } else if i < c {
    }
}

/// In a consistent directory a key leads to the one row that bears it.
pub proof fn lemma_find_id(rows: Seq<Device>, id: i64, i: int)
    requires
        rows_wf(rows),
        has_id(rows, id, i),
    ensures
        find_id(rows, id) == Some(rows[i]),
{
    let c = choose|c: int| has_id(rows, id, c);
    if c < i {
    } else if i < c {
    }
}

/// The rows without the device with key `id`.
pub open spec fn without_id(rows: Seq<Device>, id: i64) -> Seq<Device>
    decreases rows.len(),
{
    if rows.len() == 0 {
        Seq::empty()
    } else if rows.last().id == id {
        without_id(rows.drop_last(), id)
    } else {
        without_id(rows.drop_last(), id).push(rows.last())
    }
}

/// A count as a signed number, capped at the largest one.
pub open spec fn capped_len(n: nat) -> i64 {
    if n <= i64::MAX {
        n as i64
    } else {
        i64::MAX
    }
}

/// Rows that do not hold a key are left as they are when it is taken out.
pub proof fn lemma_without_absent(rows: Seq<Device>, id: i64)
    requires
        forall|i: int| 0 <= i < rows.len() ==> rows[i].id != id,
    ensures
        without_id(rows, id) == rows,
    decreases rows.len(),
{
    if rows.len() > 0 {
        lemma_without_absent(rows.drop_last(), id);
        assert(rows.drop_last().push(rows.last()) =~= rows);
    }
}

/// In a consistent directory, taking out a key removes the one row that
/// bears it.
pub proof fn lemma_without_present(rows: Seq<Device>, id: i64, p: int)
    requires
        rows_wf(rows),
        has_id(rows, id, p),
    ensures
        without_id(rows, id) == rows.remove(p),
    decreases rows.len(),
{
    let init = rows.drop_last();
    if p == rows.len() - 1 {
        lemma_without_absent(init, id);
        assert(rows.remove(p) =~= init);
    } else {
        lemma_without_present(init, id, p);
        assert(init.remove(p).push(rows.last()) =~= rows.remove(p));
    }
}

/// The directory of devices.
pub struct DeviceRepository {
    devices: Vec<Device>,
    next_id: i64,
}

impl View for DeviceRepository {
    type V = Seq<Device>;

    closed spec fn view(&self) -> Seq<Device> {
        self.devices@
    }
}

impl DeviceRepository {
    /// The key that the next new device gets.
    pub closed spec fn next_device_id(&self) -> int {
        self.next_id as int
    }

    /// The directory is consistent, and every key in it is below the next
    /// key to be given out.
    pub open spec fn wf(&self) -> bool {
        &&& rows_wf(self@)
        &&& forall|i: int| 0 <= i < self@.len() ==> (#[trigger] self@[i]).id < self.next_device_id()
    }

    /// A directory without devices.
    pub fn new() -> (r: DeviceRepository)
        ensures
            r.wf(),
            r@ == Seq::<Device>::empty(),
            r.next_device_id() == 1,
    {
        DeviceRepository { devices: Vec::new(), next_id: 1 }
    }

    /// Registers a device under the name `device_id` and returns its key.
    /// Fails, changing nothing, when the user already has a device of that
    /// name or when the keys are used up.
    pub fn create(
        &mut self,
        user_id: i64,
        device_id: &str,
        caption: Option<&str>,
        device_type: Option<&str>,
        now: i64,
    ) -> (r: Result<i64, AppError>)
        requires
            old(self).wf(),
        ensures
            final(self).wf(),
            find_named(old(self)@, user_id, device_id@) is None && old(self).next_device_id()
                < i64::MAX ==> {
                &&& r matches Ok(id)
                &&& id == old(self).next_device_id()
                &&& final(self).next_device_id() == old(self).next_device_id() + 1
                &&& final(self)@.len() == old(self)@.len() + 1
                &&& final(self)@.drop_last() == old(self)@
                &&& final(self)@.last().id == id
                &&& final(self)@.last().user_id == user_id
                &&& final(self)@.last().device_id@ == device_id@
                &&& final(self)@.last().caption.is_some() == caption.is_some()
                &&& caption matches Some(c) ==> final(self)@.last().caption.unwrap()@ == c@
                &&& final(self)@.last().device_type.is_some() == device_type.is_some()
                &&& device_type matches Some(t) ==> final(self)@.last().device_type.unwrap()@
                    == t@
                &&& final(self)@.last().created_at == now
                &&& final(self)@.last().updated_at == now
            },
            !(find_named(old(self)@, user_id, device_id@) is None && old(self).next_device_id()
                < i64::MAX) ==> {
                &&& r matches Err(AppError::Database(msg)) && msg@ == (if find_named(
                    old(self)@,
                    user_id,
                    device_id@,
                ) is Some {
                    "device already exists"@
                } else {
                    "device keys are used up"@
                })
                &&& final(self)@ == old(self)@
                &&& final(self).next_device_id() == old(self).next_device_id()
            },
    {
        if self.find_by_device_id(user_id, device_id).is_some() {
            return Err(AppError::Database(String::from_str("device already exists")));
        }
        if self.next_id == i64::MAX {
            return Err(AppError::Database(String::from_str("device keys are used up")));
        }
        let id: i64 = self.next_id;
        let caption_owned: Option<String> = match caption {
            Some(c) => Some(String::from_str(c)),
            None => None,
        };
        let type_owned: Option<String> = match device_type {
            Some(t) => Some(String::from_str(t)),
            None => None,
        };
        let device = Device {
            id,
            user_id,
            device_id: String::from_str(device_id),
            caption: caption_owned,
            device_type: type_owned,
            created_at: now,
            updated_at: now,
        };
        self.devices.push(device);
        self.next_id = id + 1;
        proof {
            assert(self@.drop_last() =~= old(self)@);
            assert forall|i: int, j: int| 0 <= i < j < self@.len() implies !(self@[i].user_id
                == self@[j].user_id && self@[i].device_id@ == self@[j].device_id@) by {
                if j == old(self)@.len() {
                    assert(!is_named(old(self)@, user_id, device_id@, i));
                }
            }
        }
        Ok(id)
    }

    /// The device with key `id`, if there is one.
    pub fn find_by_id(&self, id: i64) -> (r: Option<Device>)
        requires
            self.wf(),
        ensures
            r == find_id(self@, id),
    {
        let mut i: usize = 0;
        while i < self.devices.len()
            invariant
                self.wf(),
                i <= self@.len(),
                forall|j: int| 0 <= j < i ==> !has_id(self@, id, j),
            decreases self@.len() - i,
        {
            if self.devices[i].id == id {
                proof {
                    lemma_find_id(self@, id, i as int);
                }
                return Some(self.devices[i].clone());
            }
            i += 1;
        }
        None
    }

    /// The device that `user_id` calls `device_id`, if there is one.
    pub fn find_by_device_id(&self, user_id: i64, device_id: &str) -> (r: Option<Device>)
        requires
            self.wf(),
        ensures
            r == find_named(self@, user_id, device_id@),
    {
        let wanted: String = String::from_str(device_id);
        let mut i: usize = 0;
        while i < self.devices.len()
            invariant
                self.wf(),
                wanted@ == device_id@,
                i <= self@.len(),
                forall|j: int| 0 <= j < i ==> !is_named(self@, user_id, device_id@, j),
            decreases self@.len() - i,
        {
            if self.devices[i].user_id == user_id && self.devices[i].device_id == wanted {
                proof {
                    lemma_find_named(self@, user_id, device_id@, i as int);
                }
                return Some(self.devices[i].clone());
            }
            i += 1;
        }
        None
    }

    /// The devices of a user, the most recently registered first.
    pub fn list_by_user(&self, user_id: i64) -> (r: Vec<Device>)
        requires
            self.wf(),
        ensures
            r@ == devices_of(self@, user_id),
    {
        let mut out: Vec<Device> = Vec::new();
        let mut i: usize = self.devices.len();
        proof {
            assert(self@.take(i as int) =~= self@);
        }
        while i > 0
            invariant
                i <= self@.len(),
                out@ + devices_of(self@.take(i as int), user_id) == devices_of(self@, user_id),
            decreases i,
        {
            proof {
                assert(self@.take(i as int).drop_last() =~= self@.take(i - 1));
            }
            let ghost before = out@;
            i -= 1;
            if self.devices[i].user_id == user_id {
                out.push(self.devices[i].clone());
                proof {
                    let rest = devices_of(self@.take(i as int), user_id);
                    assert(out@ + rest =~= before + (seq![self@[i as int]] + rest));
                }
            }
        }
        proof {
            assert(out@ + Seq::<Device>::empty() =~= out@);
        }
        out
    }

    /// Sets the caption and the type of a device, and the time of its last
    /// change, and returns the device as it is then. Fails, changing nothing,
    /// when there is no device with key `id`.
    pub fn update(&mut self, id: i64, caption: Option<&str>, device_type: Option<&str>, now: i64) -> (r:
        Result<Device, AppError>)
        requires
            old(self).wf(),
        ensures
            final(self).wf(),
            final(self).next_device_id() == old(self).next_device_id(),
            match find_id(old(self)@, id) {
                Some(before) => {
                    &&& r matches Ok(after)
                    &&& find_id(final(self)@, id) == Some(after)
                    &&& after.id == id
                    &&& after.user_id == before.user_id
                    &&& after.device_id == before.device_id
                    &&& after.created_at == before.created_at
                    &&& after.updated_at == now
                    &&& after.caption.is_some() == caption.is_some()
                    &&& caption matches Some(c) ==> after.caption.unwrap()@ == c@
                    &&& after.device_type.is_some() == device_type.is_some()
                    &&& device_type matches Some(t) ==> after.device_type.unwrap()@ == t@
                    &&& final(self)@.len() == old(self)@.len()
                    &&& forall|j: int|
                        0 <= j < old(self)@.len() && old(self)@[j].id != id ==> final(self)@[j]
                            == old(self)@[j]
                },
                None => {
                    &&& r matches Err(AppError::Database(msg)) && msg@
                        == "no device with this key"@
                    &&& final(self)@ == old(self)@
                },
            },
    {
        let mut i: usize = 0;
        while i < self.devices.len()
            invariant
                *self == *old(self),
                self.wf(),
                i <= self@.len(),
                forall|j: int| 0 <= j < i ==> !has_id(self@, id, j),
            decreases self@.len() - i,
        {
            if self.devices[i].id == id {
                proof {
                    lemma_find_id(self@, id, i as int);
                }
                let caption_owned: Option<String> = match caption {
                    Some(c) => Some(String::from_str(c)),
                    None => None,
                };
                let type_owned: Option<String> = match device_type {
                    Some(t) => Some(String::from_str(t)),
                    None => None,
                };
                let changed = Device {
                    id,
                    user_id: self.devices[i].user_id,
                    device_id: self.devices[i].device_id.clone(),
                    caption: caption_owned,
                    device_type: type_owned,
                    created_at: self.devices[i].created_at,
                    updated_at: now,
                };
                let answer: Device = changed.clone();
                self.devices.set(i, changed);
                proof {
                    assert(has_id(self@, id, i as int));
                    assert(rows_wf(self@)) by {
                        assert forall|a: int, b: int| 0 <= a < b < self@.len() implies self@[a].id
                            < self@[b].id && !(self@[a].user_id == self@[b].user_id
                            && self@[a].device_id@ == self@[b].device_id@) by {
                            assert(self@[a].id == old(self)@[a].id);
                            assert(self@[b].id == old(self)@[b].id);
                            assert(self@[a].user_id == old(self)@[a].user_id);
                            assert(self@[b].user_id == old(self)@[b].user_id);
                            assert(self@[a].device_id@ == old(self)@[a].device_id@);
                            assert(self@[b].device_id@ == old(self)@[b].device_id@);
                        }
                    }
                    lemma_find_id(self@, id, i as int);
                    assert forall|j: int| 0 <= j < self@.len() implies (
                    #[trigger] self@[j]).id < self.next_device_id() by {
                        assert(self@[j].id == old(self)@[j].id);
                    }
                }
                return Ok(answer);
            }
            i += 1;
        }
        Err(AppError::Database(String::from_str("no device with this key")))
    }

    /// Removes the device with key `id`, if there is one.
    pub fn delete(&mut self, id: i64)
        requires
            old(self).wf(),
        ensures
            final(self).wf(),
            final(self).next_device_id() == old(self).next_device_id(),
            final(self)@ == without_id(old(self)@, id),
    {
        let mut i: usize = 0;
        while i < self.devices.len()
            invariant
                *self == *old(self),
                self.wf(),
                i <= self@.len(),
                forall|j: int| 0 <= j < i ==> !has_id(self@, id, j),
            decreases self@.len() - i,
        {
            if self.devices[i].id == id {
                proof {
                    lemma_without_present(self@, id, i as int);
                }
                self.devices.remove(i);
                proof {
                    let before = old(self)@;
                    assert forall|j: int| 0 <= j < self@.len() implies (
                    #[trigger] self@[j]).id < self.next_device_id() by {
                        if j < i {
                            assert(self@[j] == before[j]);
                        } else {
                            assert(self@[j] == before[j + 1]);
                        }
                    }
                    assert(rows_wf(self@)) by {
                        assert forall|a: int, b: int| 0 <= a < b < self@.len() implies self@[a].id
                            < self@[b].id && !(self@[a].user_id == self@[b].user_id
                            && self@[a].device_id@ == self@[b].device_id@) by {
                            let a0 = if a < i {
                                a
                            } else {
                                a + 1
                            };
                            let b0 = if b < i {
                                b
                            } else {
                                b + 1
                            };
                            assert(self@[a] == before[a0]);
                            assert(self@[b] == before[b0]);
                        }
                    }
                }
                return ;
            }
            i += 1;
        }
        proof {
            assert forall|j: int| 0 <= j < self@.len() implies self@[j].id != id by {
                assert(!has_id(self@, id, j));
            }
            lemma_without_absent(self@, id);
        }
    }

    /// The number of devices of a user or, if no user is named, of all
    /// devices. A number too large for the result is capped.
    pub fn count(&self, user_id: Option<i64>) -> (r: i64)
        requires
            self.wf(),
        ensures
            r == (match user_id {
                Some(user) => capped_len(devices_of(self@, user).len()),
                None => capped_len(self@.len()),
            }),
    {
        let n: usize = match user_id {
            Some(user) => self.list_by_user(user).len(),
            None => self.devices.len(),
        };
        if (n as u128) > (i64::MAX as u128) {
            i64::MAX
        } else {
            n as i64
        }
    }

    /// The directory that holds the given rows, if they are consistent and
    /// all their keys are below `next_id`.
    pub fn from_rows(rows: Vec<Device>, next_id: i64) -> (r: Option<DeviceRepository>)
        ensures
            match r {
                Some(repo) => repo.wf() && repo@ == rows@ && repo.next_device_id() == next_id,
                None => !(rows_wf(rows@) && forall|i: int|
                    0 <= i < rows@.len() ==> (#[trigger] rows@[i]).id < next_id),
            },
    {
        let mut j: usize = 0;
        while j < rows.len()
            invariant
                j <= rows@.len(),
                rows_wf(rows@.take(j as int)),
                forall|i: int| 0 <= i < j ==> (#[trigger] rows@[i]).id < next_id,
            decreases rows@.len() - j,
        {
            if rows[j].id >= next_id {
                return None;
            }
            if j > 0 && rows[j - 1].id >= rows[j].id {
                return None;
            }
            let mut i: usize = 0;
            while i < j
                invariant
                    i <= j < rows@.len(),
                    forall|k: int|
                        0 <= k < i ==> !(rows@[k].user_id == rows@[j as int].user_id
                            && rows@[k].device_id@ == rows@[j as int].device_id@),
                decreases j - i,
            {
                if rows[i].user_id == rows[j].user_id && rows[i].device_id == rows[j].device_id {
                    return None;
                }
                i += 1;
            }
            proof {
                let before = rows@.take(j as int);
                let after = rows@.take(j + 1);
                assert forall|a: int, b: int| 0 <= a < b < after.len() implies after[a].id
                    < after[b].id && !(after[a].user_id == after[b].user_id
                    && after[a].device_id@ == after[b].device_id@) by {
                    if b < j {
                        assert(before[a] == after[a] && before[b] == after[b]);
                    } else if a < j - 1 {
                        assert(before[a].id < before[j - 1].id);
                    }
                }
            }
            j += 1;
        }
        proof {
            assert(rows@.take(rows@.len() as int) =~= rows@);
        }
        Some(DeviceRepository { devices: rows, next_id })
    }

    /// All rows, in the order of registration.
    pub fn rows(&self) -> (r: Vec<Device>)
        ensures
            r@ == self@,
    {
        let mut out: Vec<Device> = Vec::new();
        let mut i: usize = 0;
        while i < self.devices.len()
            invariant
                i <= self@.len(),
                out@ == self@.take(i as int),
            decreases self@.len() - i,
        {
            out.push(self.devices[i].clone());
            proof {
                assert(out@ =~= self@.take(i + 1));
            }
            i += 1;
        }
        proof {
            assert(self@.take(self@.len() as int) =~= self@);
        }
        out
    }

    /// The key that the next new device gets.
    pub fn peek_next_device_id(&self) -> (r: i64)
        ensures
            r == self.next_device_id(),
    {
        self.next_id
    }
}

} // verus!
