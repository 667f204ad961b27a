//! Looking up and registering the devices of a user.

use vstd::prelude::*;
use crate::error::AppError;
use crate::models::Device;
use crate::repository::device_repository::{devices_of, find_named, DeviceRepository};

verus! {

/// The reason given when a user has no device of the name asked for.
pub open spec fn device_missing_message(name: Seq<char>) -> Seq<char> {
    "Device "@ + name + " not found"@
}

/// Looks up and registers devices.
pub struct DeviceService {
    pub device_repo: DeviceRepository,
}

impl DeviceService {
    /// The service over the given directory of devices.
    pub fn new(device_repo: DeviceRepository) -> (r: DeviceService)
        ensures
            r.device_repo == device_repo,
    {
        DeviceService { device_repo }
    }

    /// The device that the user calls `device_id`; an internal error when
    /// there is none.
    pub fn find_by_device_id(&self, user_id: i64, device_id: &str) -> (r: Result<Device, AppError>)
        requires
            self.device_repo.wf(),
        ensures
            match find_named(self.device_repo@, user_id, device_id@) {
                Some(d) => r == Ok::<Device, AppError>(d),
                None => r matches Err(AppError::Internal(msg)) && msg@ == device_missing_message(
                    device_id@,
                ),
            },
    {
        match self.device_repo.find_by_device_id(user_id, device_id) {
            Some(device) => Ok(device),
            None => Err(
                AppError::Internal(
                    String::from_str("Device ").concat(device_id).concat(" not found"),
                ),
            ),
        }
    }

    /// The key of the device that the user calls `device_id`. A device that
    /// the user does not have yet is registered, with the caption
    /// "Unknown Device" unless one is given. Nothing changes when the device
    /// exists; the caption and type of an existing device are not touched.
    pub fn get_or_create_device(
        &mut self,
        user_id: i64,
        device_id: &str,
        caption: Option<&str>,
        device_type: Option<&str>,
        now: i64,
    ) -> (r: Result<i64, AppError>)
        requires
            old(self).device_repo.wf(),
        ensures
            final(self).device_repo.wf(),
            match find_named(old(self).device_repo@, user_id, device_id@) {
                Some(d) => r == Ok::<i64, AppError>(d.id) && final(self).device_repo == old(
                    self,
                ).device_repo,
                None => if old(self).device_repo.next_device_id() < i64::MAX {
                    let rows = final(self).device_repo@;
                    let id = old(self).device_repo.next_device_id();
                    &&& r == Ok::<i64, AppError>(id as i64)
                    &&& rows.drop_last() == old(self).device_repo@
                    &&& rows.len() == old(self).device_repo@.len() + 1
                    &&& rows.last().id == id
                    &&& rows.last().user_id == user_id
                    &&& rows.last().device_id@ == device_id@
                    &&& rows.last().caption matches Some(c) && c@ == (match caption {
                        Some(given) => given@,
                        None => "Unknown Device"@,
                    })
                    &&& rows.last().device_type.is_some() == device_type.is_some()
                    &&& device_type matches Some(t) ==> rows.last().device_type.unwrap()@ == t@
                } else {
                    &&& r matches Err(AppError::Database(msg)) && msg@
                        == "device keys are used up"@
                    &&& final(self).device_repo@ == old(self).device_repo@
                },
            },
    {
        match self.device_repo.find_by_device_id(user_id, device_id) {
            Some(device) => {
                return Ok(device.id);
            },
            None => {},
        }
        let caption_or_default: &str = match caption {
            Some(c) => c,
            None => "Unknown Device",
        };
        self.device_repo.create(user_id, device_id, Some(caption_or_default), device_type, now)
    }

    /// The devices of a user, the most recently registered first.
    pub fn list_user_devices(&self, user_id: i64) -> (r: Vec<Device>)
        requires
            self.device_repo.wf(),
        ensures
            r@ == devices_of(self.device_repo@, user_id),
    {
        self.device_repo.list_by_user(user_id)
    }
}

} // verus!
