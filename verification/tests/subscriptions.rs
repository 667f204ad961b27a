use pod_synq::models::SubscriptionChanges;
use pod_synq::repository::SubscriptionRepository;

const USER: i64 = 1;
const DEVICE: i64 = 10;

fn urls(list: &[&str]) -> Vec<String> {
    list.iter().map(|s| s.to_string()).collect()
}

fn changes(add: &[&str], remove: &[&str], timestamp: i64) -> SubscriptionChanges {
    SubscriptionChanges {
        add: urls(add),
        remove: urls(remove),
        timestamp,
    }
}

#[test]
fn applying_adds_gives_the_current_state() {
    let mut log = SubscriptionRepository::new();
    log.apply_changes(USER, DEVICE, changes(&["http://a/feed", "http://b/feed"], &[], 100));
    assert_eq!(
        log.list_by_device(USER, DEVICE),
        urls(&["http://a/feed", "http://b/feed"])
    );
}

#[test]
fn removal_shows_in_changes_since() {
    let mut log = SubscriptionRepository::new();
    log.apply_changes(USER, DEVICE, changes(&["http://a/feed", "http://b/feed"], &[], 100));
    log.apply_changes(USER, DEVICE, changes(&[], &["http://a/feed"], 200));
    let (added, removed) = log.get_changes_since(USER, DEVICE, 150);
    assert_eq!(added, Vec::<String>::new());
    assert_eq!(removed, urls(&["http://a/feed"]));
    assert_eq!(log.list_by_device(USER, DEVICE), urls(&["http://b/feed"]));
}

#[test]
fn changes_since_are_strictly_after_the_given_time() {
    let mut log = SubscriptionRepository::new();
    log.apply_changes(USER, DEVICE, changes(&["http://a/feed"], &[], 100));
    log.apply_changes(USER, DEVICE, changes(&["http://b/feed"], &["http://a/feed"], 200));
    assert_eq!(
        log.get_changes_since(USER, DEVICE, 99),
        (urls(&["http://b/feed"]), urls(&["http://a/feed"]))
    );
    assert_eq!(
        log.get_changes_since(USER, DEVICE, 199),
        (urls(&["http://b/feed"]), urls(&["http://a/feed"]))
    );
    assert_eq!(
        log.get_changes_since(USER, DEVICE, 200),
        (Vec::<String>::new(), Vec::<String>::new())
    );
}

#[test]
fn added_then_removed_after_since_shows_as_removed_only() {
    let mut log = SubscriptionRepository::new();
    log.apply_changes(USER, DEVICE, changes(&["http://a/feed"], &[], 100));
    log.apply_changes(USER, DEVICE, changes(&[], &["http://a/feed"], 200));
    let (added, removed) = log.get_changes_since(USER, DEVICE, 50);
    assert!(added.is_empty());
    assert_eq!(removed, urls(&["http://a/feed"]));
}

#[test]
fn lists_are_ordered_by_time_then_url() {
    let mut log = SubscriptionRepository::new();
    log.apply_changes(USER, DEVICE, changes(&["http://z", "http://m"], &[], 300));
    log.apply_changes(USER, DEVICE, changes(&["http://q"], &[], 100));
    log.apply_changes(USER, DEVICE, changes(&["http://b", "http://a"], &[], 200));
    assert_eq!(
        log.list_by_device(USER, DEVICE),
        urls(&["http://q", "http://a", "http://b", "http://m", "http://z"])
    );
    log.apply_changes(USER, DEVICE, changes(&[], &["http://z"], 400));
    log.apply_changes(USER, DEVICE, changes(&[], &["http://q", "http://a"], 350));
    let (added, removed) = log.get_changes_since(USER, DEVICE, 150);
    assert_eq!(added, urls(&["http://b", "http://m"]));
    assert_eq!(removed, urls(&["http://a", "http://q", "http://z"]));
}

#[test]
fn re_adding_a_removed_feed_makes_it_active_again() {
    let mut log = SubscriptionRepository::new();
    log.apply_changes(USER, DEVICE, changes(&["http://a/feed"], &[], 100));
    log.apply_changes(USER, DEVICE, changes(&[], &["http://a/feed"], 200));
    assert!(log.list_by_device(USER, DEVICE).is_empty());
    log.apply_changes(USER, DEVICE, changes(&["http://a/feed"], &[], 300));
    assert_eq!(log.list_by_device(USER, DEVICE), urls(&["http://a/feed"]));
    let row = log.get(USER, DEVICE, "http://a/feed").unwrap();
    assert_eq!(row.added_at, 300);
    assert_eq!(row.removed_at, None);
    let (added, removed) = log.get_changes_since(USER, DEVICE, 250);
    assert_eq!(added, urls(&["http://a/feed"]));
    assert!(removed.is_empty());
}

#[test]
fn adding_an_active_feed_again_writes_nothing() {
    let mut log = SubscriptionRepository::new();
    log.apply_changes(USER, DEVICE, changes(&["http://a/feed"], &[], 100));
    log.apply_changes(USER, DEVICE, changes(&["http://a/feed", "http://a/feed"], &[], 500));
    let row = log.get(USER, DEVICE, "http://a/feed").unwrap();
    assert_eq!(row.added_at, 100);
    assert_eq!(log.list_by_device(USER, DEVICE).len(), 1);
}

#[test]
fn removing_what_is_not_subscribed_changes_nothing() {
    let mut log = SubscriptionRepository::new();
    log.apply_changes(USER, DEVICE, changes(&[], &["http://never"], 100));
    assert!(log.get(USER, DEVICE, "http://never").is_none());
    log.apply_changes(USER, DEVICE, changes(&["http://a"], &[], 100));
    log.apply_changes(USER, DEVICE, changes(&[], &["http://a"], 200));
    log.apply_changes(USER, DEVICE, changes(&[], &["http://a"], 300));
    assert_eq!(log.get(USER, DEVICE, "http://a").unwrap().removed_at, Some(200));
}

#[test]
fn a_batch_adds_before_it_removes() {
    let mut log = SubscriptionRepository::new();
    log.apply_changes(USER, DEVICE, changes(&["http://a"], &["http://a"], 100));
    let row = log.get(USER, DEVICE, "http://a").unwrap();
    assert_eq!((row.added_at, row.removed_at), (100, Some(100)));
}

#[test]
fn reconciling_moves_the_state_to_the_desired_one() {
    let mut log = SubscriptionRepository::new();
    log.apply_changes(USER, DEVICE, changes(&["http://a/feed", "http://b/feed"], &[], 100));
    log.set_subscriptions(USER, DEVICE, urls(&["http://b/feed", "http://c/feed"]), 200);
    assert_eq!(
        log.list_by_device(USER, DEVICE),
        urls(&["http://b/feed", "http://c/feed"])
    );
    // c was added, a was removed, b was not written to.
    let a = log.get(USER, DEVICE, "http://a/feed").unwrap();
    let b = log.get(USER, DEVICE, "http://b/feed").unwrap();
    let c = log.get(USER, DEVICE, "http://c/feed").unwrap();
    assert_eq!((a.added_at, a.removed_at), (100, Some(200)));
    assert_eq!((b.added_at, b.removed_at), (100, None));
    assert_eq!((c.added_at, c.removed_at), (200, None));
}

#[test]
fn reconciling_twice_writes_nothing_the_second_time() {
    let mut log = SubscriptionRepository::new();
    log.apply_changes(USER, DEVICE, changes(&["http://a/feed", "http://b/feed"], &[], 100));
    let desired = urls(&["http://c/feed", "http://b/feed", "http://c/feed"]);
    log.set_subscriptions(USER, DEVICE, desired.clone(), 200);
    let first = log.get_changes_since(USER, DEVICE, 0);
    let state = log.list_by_device(USER, DEVICE);
    log.set_subscriptions(USER, DEVICE, desired, 300);
    assert_eq!(log.list_by_device(USER, DEVICE), state);
    assert_eq!(log.get_changes_since(USER, DEVICE, 0), first);
    assert_eq!(log.get_changes_since(USER, DEVICE, 250), (vec![], vec![]));
}

#[test]
fn reconciling_to_nothing_removes_everything() {
    let mut log = SubscriptionRepository::new();
    log.apply_changes(USER, DEVICE, changes(&["http://a", "http://b"], &[], 100));
    log.set_subscriptions(USER, DEVICE, vec![], 200);
    assert!(log.list_by_device(USER, DEVICE).is_empty());
    assert_eq!(
        log.get_changes_since(USER, DEVICE, 100).1,
        urls(&["http://a", "http://b"])
    );
}

#[test]
fn devices_and_users_are_kept_apart() {
    let mut log = SubscriptionRepository::new();
    log.apply_changes(USER, DEVICE, changes(&["http://b", "http://a"], &[], 100));
    log.apply_changes(USER, DEVICE + 1, changes(&["http://c", "http://a"], &[], 50));
    log.apply_changes(USER + 1, DEVICE, changes(&["http://x"], &[], 10));
    log.apply_changes(USER, DEVICE + 1, changes(&[], &["http://c"], 60));
    assert_eq!(log.list_by_device(USER, DEVICE), urls(&["http://a", "http://b"]));
    assert_eq!(log.list_by_device(USER, DEVICE + 1), urls(&["http://a"]));
    assert_eq!(log.list_all_urls_by_user(USER), urls(&["http://a", "http://b"]));
    assert_eq!(log.list_all_urls_by_user(USER + 1), urls(&["http://x"]));
    assert!(log.list_all_urls_by_user(USER + 2).is_empty());
    log.set_subscriptions(USER, DEVICE, vec![], 200);
    assert_eq!(log.list_by_device(USER, DEVICE + 1), urls(&["http://a"]));
}

#[test]
fn changes_lead_from_the_old_state_to_the_new_one() {
    let mut log = SubscriptionRepository::new();
    log.apply_changes(USER, DEVICE, changes(&["http://a", "http://b", "http://c"], &[], 100));
    let mut known = log.list_by_device(USER, DEVICE);
    let since = 150;
    log.apply_changes(USER, DEVICE, changes(&["http://d"], &["http://a"], 200));
    log.apply_changes(USER, DEVICE, changes(&["http://e"], &["http://d"], 300));
    log.apply_changes(USER, DEVICE, changes(&["http://a"], &["http://b"], 400));
    let (added, removed) = log.get_changes_since(USER, DEVICE, since);
    known.extend(added);
    known.retain(|u| !removed.contains(u));
    known.sort();
    known.dedup();
    let mut now = log.list_by_device(USER, DEVICE);
    now.sort();
    assert_eq!(known, now);
    assert_eq!(now, urls(&["http://a", "http://c", "http://e"]));
}

#[test]
fn urls_of_a_user_are_ordered_as_their_bytes_are() {
    let mut log = SubscriptionRepository::new();
    log.apply_changes(
        USER,
        DEVICE,
        changes(&["http://b", "http://B", "http://é", "http://a/1", "http://a", "http://z"], &[], 1),
    );
    let mut expected = urls(&["http://b", "http://B", "http://é", "http://a/1", "http://a", "http://z"]);
    expected.sort();
    assert_eq!(log.list_all_urls_by_user(USER), expected);
}
