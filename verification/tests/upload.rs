use pod_synq::error::AppError;
use pod_synq::handlers::subscriptions::{
    get_all_subscriptions_simple, get_subscriptions, get_subscriptions_simple,
    upload_subscriptions, upload_subscriptions_simple, SimpleReply, SubscriptionQueryParams,
    SubscriptionUploadRequest, SubscriptionsReply,
};
use pod_synq::middleware::AuthContext;
use pod_synq::repository::{DeviceRepository, SubscriptionRepository};
use pod_synq::services::{DeviceService, SubscriptionService};

fn urls(list: &[&str]) -> Vec<String> {
    list.iter().map(|s| s.to_string()).collect()
}

fn alice() -> AuthContext {
    AuthContext {
        user_id: 1,
        username: "alice".to_string(),
    }
}

fn services() -> (DeviceService, SubscriptionService) {
    (
        DeviceService::new(DeviceRepository::new()),
        SubscriptionService::new(SubscriptionRepository::new()),
    )
}

fn request(add: &[&str], remove: &[&str], timestamp: Option<i64>) -> SubscriptionUploadRequest {
    SubscriptionUploadRequest {
        add: Some(urls(add)),
        remove: Some(urls(remove)),
        timestamp,
    }
}

#[test]
fn upload_applies_changes_and_registers_the_device() {
    let (mut devices, mut subs) = services();
    let response = upload_subscriptions(
        "alice",
        "phone",
        &alice(),
        &mut devices,
        &mut subs,
        request(&["http://a/feed", "http://b/feed"], &[], Some(100)),
        999,
    )
    .unwrap();
    assert_eq!(response.add, urls(&["http://a/feed", "http://b/feed"]));
    assert!(response.remove.is_empty());
    assert!(response.update_urls.is_empty());
    assert_eq!(response.timestamp, 999);
    let device = devices.find_by_device_id(1, "phone").unwrap();
    assert_eq!(device.id, 1);
    assert_eq!(device.caption, Some("Unknown Device".to_string()));
    assert_eq!(
        subs.get_subscriptions(1, device.id),
        urls(&["http://a/feed", "http://b/feed"])
    );
    assert_eq!(subs.sub_repo.get(1, 1, "http://a/feed").unwrap().added_at, 100);
}

#[test]
fn upload_without_a_timestamp_is_stamped_with_the_current_time() {
    let (mut devices, mut subs) = services();
    upload_subscriptions(
        "alice",
        "phone",
        &alice(),
        &mut devices,
        &mut subs,
        request(&["http://a"], &[], None),
        777,
    )
    .unwrap();
    assert_eq!(subs.sub_repo.get(1, 1, "http://a").unwrap().added_at, 777);
    upload_subscriptions(
        "alice",
        "phone",
        &alice(),
        &mut devices,
        &mut subs,
        SubscriptionUploadRequest {
            add: None,
            remove: Some(urls(&["http://a"])),
            timestamp: None,
        },
        888,
    )
    .unwrap();
    assert_eq!(subs.sub_repo.get(1, 1, "http://a").unwrap().removed_at, Some(888));
}

#[test]
fn same_url_added_and_removed_is_rejected_and_nothing_changes() {
    let (mut devices, mut subs) = services();
    upload_subscriptions(
        "alice",
        "phone",
        &alice(),
        &mut devices,
        &mut subs,
        request(&["http://a", "http://b"], &[], Some(100)),
        100,
    )
    .unwrap();
    let result = upload_subscriptions(
        "alice",
        "tablet",
        &alice(),
        &mut devices,
        &mut subs,
        request(&["http://c", "http://x", "http://b"], &["http://b", "http://x"], Some(200)),
        200,
    );
    match result {
        Err(AppError::BadRequest(msg)) => {
            assert_eq!(msg, "URL cannot be both added and removed: http://x")
        }
        _ => panic!("expected a bad request"),
    }
    assert_eq!(subs.get_subscriptions(1, 1), urls(&["http://a", "http://b"]));
    assert_eq!(subs.get_changes_since(1, 1, 150), (vec![], vec![]));
    assert!(devices.find_by_device_id(1, "tablet").is_err());
    assert!(subs.sub_repo.get(1, 1, "http://c").is_none());
}

#[test]
fn rejected_scheme_is_rewritten_reported_and_never_stored() {
    let (mut devices, mut subs) = services();
    let response = upload_subscriptions(
        "alice",
        "phone",
        &alice(),
        &mut devices,
        &mut subs,
        request(&["javascript:alert(1)", "http://ok"], &["ftp://gone"], Some(100)),
        100,
    )
    .unwrap();
    assert_eq!(
        response.update_urls,
        vec![
            ["javascript:alert(1)".to_string(), "".to_string()],
            ["ftp://gone".to_string(), "".to_string()],
        ]
    );
    assert_eq!(response.add, urls(&["http://ok"]));
    assert!(response.remove.is_empty());
    assert_eq!(subs.get_subscriptions(1, 1), urls(&["http://ok"]));
    assert!(subs.sub_repo.get(1, 1, "").is_none());
    assert!(subs.sub_repo.get(1, 1, "javascript:alert(1)").is_none());
    assert_eq!(subs.get_all_subscriptions(1), urls(&["http://ok"]));
}

#[test]
fn upload_for_another_user_is_refused() {
    let (mut devices, mut subs) = services();
    let result = upload_subscriptions(
        "bob",
        "phone",
        &alice(),
        &mut devices,
        &mut subs,
        request(&["http://a"], &[], Some(1)),
        1,
    );
    assert!(matches!(result, Err(AppError::Authorization)));
    assert!(devices.list_user_devices(1).is_empty());
    assert!(subs.get_all_subscriptions(1).is_empty());
}

#[test]
fn polling_gives_changes_or_the_whole_list() {
    let (mut devices, mut subs) = services();
    upload_subscriptions(
        "alice",
        "phone",
        &alice(),
        &mut devices,
        &mut subs,
        request(&["http://a/feed", "http://b/feed"], &[], Some(100)),
        100,
    )
    .unwrap();
    upload_subscriptions(
        "alice",
        "phone",
        &alice(),
        &mut devices,
        &mut subs,
        request(&[], &["http://a/feed"], Some(200)),
        200,
    )
    .unwrap();
    let reply = get_subscriptions(
        "alice",
        "phone",
        &SubscriptionQueryParams { since: Some(150) },
        &alice(),
        &mut devices,
        &subs,
        300,
    )
    .unwrap();
    match reply {
        SubscriptionsReply::Changes(changes) => {
            assert!(changes.add.is_empty());
            assert_eq!(changes.remove, urls(&["http://a/feed"]));
            assert_eq!(changes.timestamp, 300);
            assert!(changes.update_urls.is_empty());
        }
        _ => panic!("expected changes"),
    }
    let reply = get_subscriptions(
        "alice",
        "phone",
        &SubscriptionQueryParams { since: None },
        &alice(),
        &mut devices,
        &subs,
        300,
    )
    .unwrap();
    match reply {
        SubscriptionsReply::List(list) => assert_eq!(list, urls(&["http://b/feed"])),
        _ => panic!("expected the list"),
    }
    assert!(matches!(
        get_subscriptions(
            "mallory",
            "phone",
            &SubscriptionQueryParams { since: None },
            &alice(),
            &mut devices,
            &subs,
            300
        ),
        Err(AppError::Authorization)
    ));
}

#[test]
fn full_list_upload_reconciles_and_reports_the_difference() {
    let (mut devices, mut subs) = services();
    upload_subscriptions(
        "alice",
        "phone",
        &alice(),
        &mut devices,
        &mut subs,
        request(&["http://a/feed", "http://b/feed"], &[], Some(100)),
        100,
    )
    .unwrap();
    let response = upload_subscriptions_simple(
        "alice",
        "phone",
        "txt",
        &alice(),
        &mut devices,
        &mut subs,
        "http://b/feed\nhttp://c/feed\nmailto:me\n",
        200,
    )
    .unwrap();
    assert_eq!(response.add, urls(&["http://c/feed"]));
    assert_eq!(response.remove, urls(&["http://a/feed"]));
    assert_eq!(
        response.update_urls,
        vec![["mailto:me".to_string(), "".to_string()]]
    );
    assert_eq!(subs.get_subscriptions(1, 1), urls(&["http://b/feed", "http://c/feed"]));
    assert_eq!(subs.sub_repo.get(1, 1, "http://b/feed").unwrap().added_at, 100);

    let again = upload_subscriptions_simple(
        "alice",
        "phone",
        "json",
        &alice(),
        &mut devices,
        &mut subs,
        "[\"http://c/feed\", \"http://b/feed\"]",
        300,
    )
    .unwrap();
    assert!(again.add.is_empty());
    assert!(again.remove.is_empty());
    assert_eq!(subs.get_changes_since(1, 1, 250), (vec![], vec![]));
}

#[test]
fn unreadable_full_list_changes_nothing() {
    let (mut devices, mut subs) = services();
    upload_subscriptions(
        "alice",
        "phone",
        &alice(),
        &mut devices,
        &mut subs,
        request(&["http://a"], &[], Some(100)),
        100,
    )
    .unwrap();
    for (format, body) in [("json", "{"), ("yaml", "- http://b")] {
        let result = upload_subscriptions_simple(
            "alice", "phone", format, &alice(), &mut devices, &mut subs, body, 200,
        );
        assert!(matches!(result, Err(AppError::Internal(_))));
    }
    assert!(matches!(
        upload_subscriptions_simple(
            "bob", "phone", "txt", &alice(), &mut devices, &mut subs, "", 200
        ),
        Err(AppError::Authorization)
    ));
    assert_eq!(subs.get_subscriptions(1, 1), urls(&["http://a"]));
}

#[test]
fn lists_are_served_in_simple_formats() {
    let (mut devices, mut subs) = services();
    upload_subscriptions(
        "alice",
        "phone",
        &alice(),
        &mut devices,
        &mut subs,
        request(&["http://b", "http://a"], &[], Some(100)),
        100,
    )
    .unwrap();
    upload_subscriptions(
        "alice",
        "tablet",
        &alice(),
        &mut devices,
        &mut subs,
        request(&["http://c", "http://a"], &[], Some(50)),
        100,
    )
    .unwrap();
    match get_subscriptions_simple("alice", "phone", "txt", &alice(), &mut devices, &subs, 1)
        .unwrap()
    {
        SimpleReply::Body { content, content_type } => {
            assert_eq!(content, "http://a\nhttp://b");
            assert_eq!(content_type, "text/plain");
        }
        _ => panic!("expected a body"),
    }
    match get_all_subscriptions_simple("alice", "json", &alice(), &subs).unwrap() {
        SimpleReply::Json(list) => assert_eq!(list, urls(&["http://a", "http://b", "http://c"])),
        _ => panic!("expected the list"),
    }
    assert!(matches!(
        get_all_subscriptions_simple("alice", "pdf", &alice(), &subs),
        Err(AppError::Internal(_))
    ));
    assert!(matches!(
        get_all_subscriptions_simple("bob", "json", &alice(), &subs),
        Err(AppError::Authorization)
    ));
}

#[test]
fn subscriptions_are_counted_by_device_and_by_user() {
    let (mut devices, mut subs) = services();
    upload_subscriptions(
        "alice",
        "phone",
        &alice(),
        &mut devices,
        &mut subs,
        request(&["http://b", "http://a"], &[], Some(100)),
        100,
    )
    .unwrap();
    upload_subscriptions(
        "alice",
        "tablet",
        &alice(),
        &mut devices,
        &mut subs,
        request(&["http://c", "http://a", "http://d"], &[], Some(50)),
        100,
    )
    .unwrap();
    upload_subscriptions(
        "alice",
        "tablet",
        &alice(),
        &mut devices,
        &mut subs,
        request(&[], &["http://d"], Some(60)),
        100,
    )
    .unwrap();
    assert_eq!(subs.count_subscriptions(1, Some(1)), 2);
    assert_eq!(subs.count_subscriptions(1, Some(2)), 2);
    assert_eq!(subs.count_subscriptions(1, Some(3)), 0);
    assert_eq!(subs.count_subscriptions(1, None), 4);
    assert_eq!(subs.count_subscriptions(2, None), 0);
}
