//! The subscriptions of a user's devices, as the request handlers use them.

use vstd::prelude::*;
use crate::models::SubscriptionChanges;
use crate::repository::subscription_repository::{
    active_keys,
    added_urls,
    answer,
    applied,
    capped,
    current_urls,
    reconciled,
    removed_urls,
    user_urls,
    Selection,
    SubscriptionRepository,
};
use crate::text::{text_set, views, without};

verus! {

/// Reads and changes the subscriptions of devices.
pub struct SubscriptionService {
    pub sub_repo: SubscriptionRepository,
}

impl SubscriptionService {
    /// The service over the given subscription log.
    pub fn new(sub_repo: SubscriptionRepository) -> (r: SubscriptionService)
        ensures
            r.sub_repo == sub_repo,
    {
        SubscriptionService { sub_repo }
    }

    /// The feeds that a device is subscribed to, ordered by the time of
    /// subscribing and, at equal times, by URL.
    pub fn get_subscriptions(&self, user_id: i64, device_id: i64) -> (r: Vec<String>)
        requires
            self.sub_repo.wf(),
        ensures
            views(r@) == answer(self.sub_repo@, user_id, device_id, Selection::Current),
            views(r@).no_duplicates(),
            forall|url: Seq<char>|
                #[trigger] views(r@).contains(url) <==> current_urls(
                    self.sub_repo@,
                    user_id,
                    device_id,
                ).contains(url),
    {
        self.sub_repo.list_by_device(user_id, device_id)
    }

    /// The feeds that one or more devices of a user are subscribed to, each
    /// once, ordered by URL.
    pub fn get_all_subscriptions(&self, user_id: i64) -> (r: Vec<String>)
        requires
            self.sub_repo.wf(),
        ensures
            views(r@) == answer(self.sub_repo@, user_id, 0, Selection::AllOfUser),
            views(r@).no_duplicates(),
            forall|url: Seq<char>|
                #[trigger] views(r@).contains(url) <==> user_urls(self.sub_repo@, user_id).contains(url),
    {
        self.sub_repo.list_all_urls_by_user(user_id)
    }

    /// The feeds added and the feeds removed on a device after `since`.
    pub fn get_changes_since(&self, user_id: i64, device_id: i64, since: i64) -> (r: (
        Vec<String>,
        Vec<String>,
    ))
        requires
            self.sub_repo.wf(),
        ensures
            views(r.0@) == answer(self.sub_repo@, user_id, device_id, Selection::AddedSince(since)),
            views(r.1@) == answer(
                self.sub_repo@,
                user_id,
                device_id,
                Selection::RemovedSince(since),
            ),
            views(r.0@).no_duplicates(),
            views(r.1@).no_duplicates(),
            forall|url: Seq<char>|
                #[trigger] views(r.0@).contains(url) <==> added_urls(
                    self.sub_repo@,
                    user_id,
                    device_id,
                    since,
                ).contains(url),
            forall|url: Seq<char>|
                #[trigger] views(r.1@).contains(url) <==> removed_urls(
                    self.sub_repo@,
                    user_id,
                    device_id,
                    since,
                ).contains(url),
    {
        self.sub_repo.get_changes_since(user_id, device_id, since)
    }

    /// Sets the subscriptions of a device to `podcast_urls`, as of
    /// `timestamp`, and returns the feeds that were added and those that
    /// were removed.
    pub fn set_subscriptions(
        &mut self,
        user_id: i64,
        device_id: i64,
        podcast_urls: Vec<String>,
        timestamp: i64,
    ) -> (r: (Vec<String>, Vec<String>))
        requires
            old(self).sub_repo.wf(),
        ensures
            final(self).sub_repo.wf(),
            final(self).sub_repo@ == reconciled(
                old(self).sub_repo@,
                user_id,
                device_id,
                text_set(views(podcast_urls@)),
                timestamp,
            ),
            current_urls(final(self).sub_repo@, user_id, device_id) == text_set(
                views(podcast_urls@),
            ),
            views(r.0@) == without(
                views(podcast_urls@),
                answer(old(self).sub_repo@, user_id, device_id, Selection::Current),
            ),
            views(r.1@) == without(
                answer(old(self).sub_repo@, user_id, device_id, Selection::Current),
                views(podcast_urls@),
            ),
    {
        self.sub_repo.set_subscriptions(user_id, device_id, podcast_urls, timestamp)
    }

    /// Applies a batch of changes of one device.
    pub fn upload_changes(&mut self, user_id: i64, device_id: i64, changes: SubscriptionChanges)
        requires
            old(self).sub_repo.wf(),
        ensures
            final(self).sub_repo.wf(),
            final(self).sub_repo@ == applied(
                old(self).sub_repo@,
                user_id,
                device_id,
                views(changes.add@),
                views(changes.remove@),
                changes.timestamp,
            ),
    {
        self.sub_repo.apply_changes(user_id, device_id, changes);
    }

    /// The number of feeds that a device is subscribed to or, if no device
    /// is named, the number of subscriptions of all devices of the user
    /// together.
    pub fn count_subscriptions(&self, user_id: i64, device_id: Option<i64>) -> (r: i64)
        requires
            self.sub_repo.wf(),
        ensures
            active_keys(self.sub_repo@, user_id, device_id).finite(),
            r == capped(active_keys(self.sub_repo@, user_id, device_id).len()),
    {
        self.sub_repo.count(user_id, device_id)
    }
}

} // verus!
