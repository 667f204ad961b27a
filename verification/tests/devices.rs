use pod_synq::error::AppError;
use pod_synq::handlers::clientconfig::get_client_config;
use pod_synq::handlers::device_sync::{get_sync_status, update_sync_groups};
use pod_synq::handlers::devices::{
    get_device_updates, list_devices, update_device, UpdateDeviceRequest, UpdatesQueryParams,
};
use pod_synq::handlers::favorites::get_favorites;
use pod_synq::middleware::AuthContext;
use pod_synq::models::{DeviceSyncRequest, FavoriteEpisode, Podcast, SubscriptionChanges};
use pod_synq::repository::{DeviceRepository, DeviceSyncRepository, SubscriptionRepository};
use pod_synq::services::{
    DeviceService, DeviceSyncService, PodcastService, SubscriptionService,
};

fn alice() -> AuthContext {
    AuthContext {
        user_id: 1,
        username: "alice".to_string(),
    }
}

fn urls(list: &[&str]) -> Vec<String> {
    list.iter().map(|s| s.to_string()).collect()
}

#[test]
fn devices_are_registered_found_changed_and_removed() {
    let mut repo = DeviceRepository::new();
    assert_eq!(repo.create(1, "phone", Some("My phone"), Some("mobile"), 10).unwrap(), 1);
    assert_eq!(repo.create(2, "phone", None, None, 20).unwrap(), 2);
    assert_eq!(repo.create(1, "laptop", None, Some("laptop"), 30).unwrap(), 3);
    assert!(matches!(
        repo.create(1, "phone", None, None, 40),
        Err(AppError::Database(_))
    ));
    assert_eq!(repo.count(None), 3);
    assert_eq!(repo.count(Some(1)), 2);
    assert_eq!(repo.count(Some(9)), 0);

    let phone = repo.find_by_device_id(1, "phone").unwrap();
    assert_eq!(phone.id, 1);
    assert_eq!(phone.caption, Some("My phone".to_string()));
    assert_eq!(phone.device_type, Some("mobile".to_string()));
    assert_eq!((phone.created_at, phone.updated_at), (10, 10));
    assert!(repo.find_by_device_id(1, "tablet").is_none());
    assert_eq!(repo.find_by_id(2).unwrap().user_id, 2);
    assert!(repo.find_by_id(4).is_none());

    let ids: Vec<i64> = repo.list_by_user(1).iter().map(|d| d.id).collect();
    assert_eq!(ids, vec![3, 1]);

    let changed = repo.update(1, None, Some("phone"), 50).unwrap();
    assert_eq!(changed.caption, None);
    assert_eq!(changed.device_type, Some("phone".to_string()));
    assert_eq!((changed.created_at, changed.updated_at), (10, 50));
    assert_eq!(repo.find_by_id(1).unwrap().updated_at, 50);
    assert!(matches!(repo.update(9, None, None, 60), Err(AppError::Database(_))));

    repo.delete(1);
    repo.delete(1);
    assert!(repo.find_by_id(1).is_none());
    assert_eq!(repo.count(None), 2);
    // Keys are not given out twice.
    assert_eq!(repo.create(1, "phone", None, None, 70).unwrap(), 4);
}

#[test]
fn device_is_created_on_first_use_only() {
    let mut service = DeviceService::new(DeviceRepository::new());
    assert_eq!(service.get_or_create_device(1, "phone", None, Some("mobile"), 10).unwrap(), 1);
    assert_eq!(
        service.get_or_create_device(1, "phone", Some("Renamed"), None, 20).unwrap(),
        1
    );
    let phone = service.find_by_device_id(1, "phone").unwrap();
    assert_eq!(phone.caption, Some("Unknown Device".to_string()));
    assert_eq!(phone.device_type, Some("mobile".to_string()));
    assert_eq!(phone.updated_at, 10);
    assert_eq!(
        service.get_or_create_device(1, "tablet", Some("Tab"), None, 30).unwrap(),
        2
    );
    assert_eq!(service.find_by_device_id(1, "tablet").unwrap().caption, Some("Tab".to_string()));
    match service.find_by_device_id(1, "watch") {
        Err(AppError::Internal(msg)) => assert_eq!(msg, "Device watch not found"),
        _ => panic!("expected an internal error"),
    }
}

#[test]
fn devices_are_listed_with_their_subscription_counts() {
    let mut devices = DeviceService::new(DeviceRepository::new());
    let mut subs = SubscriptionService::new(SubscriptionRepository::new());
    let request = UpdateDeviceRequest {
        caption: Some("Phone".to_string()),
        device_type: Some("mobile".to_string()),
    };
    assert_eq!(update_device("alice", "phone", &alice(), &mut devices, &request, 10).unwrap(), 1);
    let bare = UpdateDeviceRequest { caption: None, device_type: None };
    assert_eq!(update_device("alice", "pc", &alice(), &mut devices, &bare, 20).unwrap(), 2);
    assert!(matches!(
        update_device("bob", "pc", &alice(), &mut devices, &bare, 20),
        Err(AppError::Authorization)
    ));
    subs.upload_changes(
        1,
        1,
        SubscriptionChanges { add: urls(&["http://a", "http://b"]), remove: vec![], timestamp: 5 },
    );
    let list = list_devices("alice", &alice(), &devices, &subs).unwrap();
    assert_eq!(list.len(), 2);
    assert_eq!(
        (list[0].id.as_str(), list[0].caption.as_str(), list[0].device_type.as_str(), list[0].subscriptions),
        ("pc", "Unknown Device", "unknown", 0)
    );
    assert_eq!(
        (list[1].id.as_str(), list[1].caption.as_str(), list[1].device_type.as_str(), list[1].subscriptions),
        ("phone", "Phone", "mobile", 2)
    );
    assert!(matches!(
        list_devices("bob", &alice(), &devices, &subs),
        Err(AppError::Authorization)
    ));
}

#[test]
fn device_updates_default_to_the_beginning() {
    let mut devices = DeviceService::new(DeviceRepository::new());
    let mut subs = SubscriptionService::new(SubscriptionRepository::new());
    devices.get_or_create_device(1, "phone", None, None, 1).unwrap();
    subs.upload_changes(
        1,
        1,
        SubscriptionChanges { add: urls(&["http://a", "http://b"]), remove: vec![], timestamp: 5 },
    );
    subs.upload_changes(
        1,
        1,
        SubscriptionChanges { add: vec![], remove: urls(&["http://a"]), timestamp: 9 },
    );
    let all = get_device_updates(
        "alice",
        "phone",
        &UpdatesQueryParams { since: None, include_actions: None },
        &alice(),
        &devices,
        &subs,
        100,
    )
    .unwrap();
    assert_eq!(all.add, urls(&["http://b"]));
    assert_eq!(all.remove, urls(&["http://a"]));
    assert_eq!(all.timestamp, 100);
    let late = get_device_updates(
        "alice",
        "phone",
        &UpdatesQueryParams { since: Some(5), include_actions: Some(false) },
        &alice(),
        &devices,
        &subs,
        100,
    )
    .unwrap();
    assert!(late.add.is_empty());
    assert_eq!(late.remove, urls(&["http://a"]));
    assert!(matches!(
        get_device_updates(
            "alice",
            "watch",
            &UpdatesQueryParams { since: None, include_actions: None },
            &alice(),
            &devices,
            &subs,
            100
        ),
        Err(AppError::Internal(_))
    ));
}

#[test]
fn sync_requests_are_for_the_caller_only() {
    let mut repo = DeviceRepository::new();
    repo.create(1, "d1", None, None, 1).unwrap();
    repo.create(1, "d2", None, None, 2).unwrap();
    let mut service = DeviceSyncService::new(DeviceSyncRepository::new(), repo);
    let request = DeviceSyncRequest {
        synchronize: vec![urls(&["d1", "d2"])],
        stop_synchronize: vec![],
    };
    assert!(matches!(
        update_sync_groups("bob", &alice(), &mut service, request),
        Err(AppError::Authentication)
    ));
    assert!(get_sync_status("alice", &alice(), &service).unwrap().synchronized.is_empty());
    let request = DeviceSyncRequest {
        synchronize: vec![urls(&["d1", "d2"])],
        stop_synchronize: vec![],
    };
    let status = update_sync_groups("alice", &alice(), &mut service, request).unwrap();
    assert_eq!(status.synchronized, vec![urls(&["d1", "d2"])]);
    assert!(matches!(
        get_sync_status("bob", &alice(), &service),
        Err(AppError::Authentication)
    ));
}

#[test]
fn client_configuration_names_the_base_url() {
    let config = get_client_config("https://pods.example".to_string());
    assert_eq!(config.mygpo.base_url, "https://pods.example");
    assert_eq!(config.update_timeout, 604800);
}

fn favorite(id: i64, title: Option<&str>) -> FavoriteEpisode {
    FavoriteEpisode {
        id,
        user_id: 1,
        podcast_url: "http://p".to_string(),
        episode_url: "http://p/e1".to_string(),
        title: title.map(|t| t.to_string()),
        podcast_title: None,
        description: Some("about".to_string()),
        website: None,
        released: Some("2024-01-01".to_string()),
        created_at: 3,
    }
}

#[test]
fn favorites_are_shown_with_a_link() {
    let response = favorite(42, Some("Episode")).to_response("https://base");
    assert_eq!(response.title, "Episode");
    assert_eq!(response.url, "http://p/e1");
    assert_eq!(response.podcast_title, "");
    assert_eq!(response.podcast_url, "http://p");
    assert_eq!(response.description, Some("about".to_string()));
    assert_eq!(response.website, None);
    assert_eq!(response.released, Some("2024-01-01".to_string()));
    assert_eq!(response.mygpo_link, "https://base/episode/42");
    for id in [0, 7, 10, 99, 100, 1234567890, -1, -10, -45, i64::MAX, i64::MIN] {
        assert_eq!(
            favorite(id, None).to_response("b").mygpo_link,
            format!("b/episode/{}", id)
        );
    }
    let list = get_favorites("alice", &alice(), &vec![favorite(1, None), favorite(2, Some("x"))], "u")
        .unwrap();
    assert_eq!(list.len(), 2);
    assert_eq!(list[0].title, "");
    assert_eq!(list[1].mygpo_link, "u/episode/2");
    assert!(matches!(
        get_favorites("bob", &alice(), &vec![], "u"),
        Err(AppError::Authentication)
    ));
}

fn podcast(url: &str, title: Option<&str>) -> Podcast {
    Podcast {
        id: 1,
        url: url.to_string(),
        title: title.map(|t| t.to_string()),
        description: None,
        website: Some("http://site".to_string()),
        logo_url: None,
        subscriber_count: 12,
        created_at: 1,
        updated_at: 2,
    }
}

#[test]
fn feeds_are_shown_with_an_encoded_link() {
    let shown = podcast("http://example.com/my feed/é.xml", None).to_metadata("https://base");
    assert_eq!(shown.url, "http://example.com/my feed/é.xml");
    assert_eq!(shown.title, "é.xml");
    assert_eq!(shown.description, "");
    assert_eq!(shown.subscribers, 12);
    assert_eq!(shown.website, Some("http://site".to_string()));
    assert_eq!(
        shown.mygpo_link,
        "https://base/podcast/http%3A%2F%2Fexample.com%2Fmy%20feed%2F%C3%A9.xml"
    );
    let titled = podcast("http://a/b/", Some("Named")).to_metadata("x");
    assert_eq!(titled.title, "Named");
    assert_eq!(titled.mygpo_link, "x/podcast/http%3A%2F%2Fa%2Fb%2F");
    assert_eq!(podcast("http://a/b/", None).to_metadata("x").title, "");
    assert_eq!(podcast("plain-_.~", None).to_metadata("x").title, "plain-_.~");
    assert_eq!(podcast("plain-_.~", None).to_metadata("x").mygpo_link, "x/podcast/plain-_.~");
}

#[test]
fn metadata_falls_back_to_the_url_for_unknown_feeds() {
    let service = PodcastService::new("https://base".to_string());
    let stored = vec![
        podcast("http://a/one", Some("Old")),
        podcast("http://a/two", None),
        podcast("http://a/one", Some("New")),
    ];
    let shown = service.get_metadata_for_urls(
        &stored,
        &urls(&["http://a/two", "http://b/three", "http://a/one"]),
    );
    assert_eq!(shown.len(), 3);
    assert_eq!((shown[0].title.as_str(), shown[0].subscribers), ("two", 12));
    assert_eq!((shown[1].title.as_str(), shown[1].subscribers), ("three", 0));
    assert_eq!(shown[1].website, None);
    assert_eq!(shown[1].mygpo_link, "https://base/podcast/http%3A%2F%2Fb%2Fthree");
    assert_eq!(shown[2].title, "New");
    let fallback = service.create_fallback_metadata("no-slash");
    assert_eq!(fallback.title, "no-slash");
    assert_eq!(fallback.url, "no-slash");
}
