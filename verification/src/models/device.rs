use vstd::prelude::*;
use crate::text::clone_opt;

verus! {

/// A client device registered by a user. `id` is the store's key; `device_id`
/// is the name the client chose, unique among the user's devices.
#[derive(Debug)]
pub struct Device {
    pub id: i64,
    pub user_id: i64,
    pub device_id: String,
    pub caption: Option<String>,
    pub device_type: Option<String>,
    pub created_at: i64,
    pub updated_at: i64,
}

impl Clone for Device {
    fn clone(&self) -> (r: Device)
        ensures
            r == *self,
    {
        Device {
            id: self.id,
            user_id: self.user_id,
            device_id: self.device_id.clone(),
            caption: clone_opt(&self.caption),
            device_type: clone_opt(&self.device_type),
            created_at: self.created_at,
            updated_at: self.updated_at,
        }
    }
}

} // verus!
