use vstd::prelude::*;

verus! {

/// One feed on one device of one user: when the device last subscribed to
/// it, and when, if at all, it unsubscribed after that.
#[derive(Debug)]
pub struct Subscription {
    pub user_id: i64,
    pub device_id: i64,
    pub podcast_url: String,
    pub added_at: i64,
    pub removed_at: Option<i64>,
}

impl Clone for Subscription {
    fn clone(&self) -> (r: Subscription)
        ensures
            r == *self,
    {
        Subscription {
            user_id: self.user_id,
            device_id: self.device_id,
            podcast_url: self.podcast_url.clone(),
            added_at: self.added_at,
            removed_at: self.removed_at,
        }
    }
}

/// A batch of subscription changes of one device: feeds to subscribe to,
/// feeds to unsubscribe from, and the time at which the changes count.
#[derive(Debug)]
pub struct SubscriptionChanges {
    pub add: Vec<String>,
    pub remove: Vec<String>,
    pub timestamp: i64,
}

} // verus!
