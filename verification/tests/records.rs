use pod_synq::error::AppError;
use pod_synq::handlers::episodes::{episode_action_query, group_by_podcast, EpisodeActionQueryParams};
use pod_synq::handlers::settings::{favorite_changes, FavoriteChange, SettingEntry};
use pod_synq::middleware::AuthContext;
use pod_synq::models::{
    Device, EpisodeAction, EpisodeActionQuery, Session, Setting, Subscription, SubscriptionChanges,
    User,
};
use pod_synq::repository::episode_action_repository::list_actions_sql;
use pod_synq::repository::setting_repository::{delete_setting_sql, select_settings_sql};
use pod_synq::repository::{
    DeviceRepository, DeviceSyncRepository, SessionRepository, SubscriptionRepository,
    UserRepository,
};
use pod_synq::services::setting_service::{settings_as_json, stored_value_as_json};

fn device(id: i64, user_id: i64, name: &str) -> Device {
    Device {
        id,
        user_id,
        device_id: name.to_string(),
        caption: None,
        device_type: None,
        created_at: id,
        updated_at: id,
    }
}

#[test]
fn devices_are_loaded_only_if_consistent() {
    let rows = vec![device(2, 1, "a"), device(5, 1, "b"), device(6, 2, "a")];
    let mut repo = DeviceRepository::from_rows(rows, 9).unwrap();
    assert_eq!(repo.peek_next_device_id(), 9);
    assert_eq!(repo.find_by_device_id(1, "b").unwrap().id, 5);
    assert_eq!(repo.create(2, "b", None, None, 0).unwrap(), 9);
    let ids: Vec<i64> = repo.rows().iter().map(|d| d.id).collect();
    assert_eq!(ids, vec![2, 5, 6, 9]);

    assert!(DeviceRepository::from_rows(vec![], 1).is_some());
    // Keys out of order, a key twice, a key that is not below the next one, a name twice.
    assert!(DeviceRepository::from_rows(vec![device(2, 1, "a"), device(1, 1, "b")], 9).is_none());
    assert!(DeviceRepository::from_rows(vec![device(2, 1, "a"), device(2, 1, "b")], 9).is_none());
    assert!(DeviceRepository::from_rows(vec![device(2, 1, "a"), device(9, 1, "b")], 9).is_none());
    assert!(DeviceRepository::from_rows(vec![device(2, 1, "a"), device(3, 1, "a")], 9).is_none());
}

#[test]
fn users_and_sessions_are_loaded_only_if_consistent() {
    let user = |id: i64, name: &str| User {
        id,
        username: name.to_string(),
        password_hash: "h".to_string(),
        is_admin: false,
        created_at: 0,
    };
    let repo = UserRepository::from_rows(vec![user(1, "a"), user(4, "b")], 5).unwrap();
    assert_eq!(repo.peek_next_user_id(), 5);
    assert_eq!(repo.find_by_username("b").unwrap().id, 4);
    assert_eq!(repo.rows().len(), 2);
    assert!(UserRepository::from_rows(vec![user(1, "a"), user(4, "a")], 5).is_none());
    assert!(UserRepository::from_rows(vec![user(4, "a"), user(1, "b")], 5).is_none());
    assert!(UserRepository::from_rows(vec![user(5, "a")], 5).is_none());

    let session = |id: &str| Session {
        id: id.to_string(),
        user_id: 1,
        expires_at: 10,
        created_at: 0,
    };
    let repo = SessionRepository::from_rows(vec![session("x"), session("y")]).unwrap();
    assert_eq!(repo.find_by_id("y").unwrap().expires_at, 10);
    let ids: Vec<String> = repo.rows().into_iter().map(|s| s.id).collect();
    assert_eq!(ids, vec!["x".to_string(), "y".to_string()]);
    assert!(SessionRepository::from_rows(vec![session("x"), session("x")]).is_none());
}

#[test]
fn subscription_log_is_loaded_and_written_back() {
    let row = |device: i64, url: &str, added: i64, removed: Option<i64>| Subscription {
        user_id: 1,
        device_id: device,
        podcast_url: url.to_string(),
        added_at: added,
        removed_at: removed,
    };
    let mut log = SubscriptionRepository::from_rows(vec![
        row(1, "http://b", 20, None),
        row(1, "http://a", 10, Some(15)),
        row(2, "http://a", 5, None),
    ])
    .unwrap();
    assert_eq!(log.list_by_device(1, 1), vec!["http://b".to_string()]);
    assert_eq!(log.get_changes_since(1, 1, 12).1, vec!["http://a".to_string()]);
    log.apply_changes(
        1,
        1,
        SubscriptionChanges {
            add: vec!["http://a".to_string()],
            remove: vec![],
            timestamp: 30,
        },
    );
    let mut rows: Vec<(i64, String, i64, Option<i64>)> = log
        .rows()
        .into_iter()
        .map(|r| (r.device_id, r.podcast_url, r.added_at, r.removed_at))
        .collect();
    rows.sort();
    assert_eq!(
        rows,
        vec![
            (1, "http://a".to_string(), 30, None),
            (1, "http://b".to_string(), 20, None),
            (2, "http://a".to_string(), 5, None),
        ]
    );
    assert!(SubscriptionRepository::from_rows(vec![
        row(1, "http://a", 1, None),
        row(1, "http://a", 2, Some(3)),
    ])
    .is_none());
}

#[test]
fn group_store_is_loaded_only_if_consistent() {
    let mut repo =
        DeviceSyncRepository::from_rows(vec![(1, 7), (4, 7), (5, 8)], vec![(10, 4), (20, 1), (30, 4)], 6)
            .unwrap();
    assert_eq!(repo.get_user_groups(7), vec![1, 4]);
    assert_eq!(repo.get_group_devices(4), vec![10, 30]);
    assert_eq!(repo.create_group(7).unwrap(), 6);
    assert_eq!(repo.group_rows(), vec![(1, 7), (4, 7), (5, 8), (6, 7)]);
    assert_eq!(repo.member_rows(), vec![(10, 4), (20, 1), (30, 4)]);

    // A membership in a group that does not exist.
    assert!(DeviceSyncRepository::from_rows(vec![(1, 7)], vec![(10, 2)], 6).is_none());
    // A device in two groups.
    assert!(DeviceSyncRepository::from_rows(vec![(1, 7), (2, 7)], vec![(10, 1), (10, 2)], 6).is_none());
    // Rows out of order, and a group id that is not below the next one.
    assert!(DeviceSyncRepository::from_rows(vec![(2, 7), (1, 7)], vec![], 6).is_none());
    assert!(DeviceSyncRepository::from_rows(vec![(6, 7)], vec![], 6).is_none());
}

fn action(podcast: &str, episode: &str, timestamp: i64) -> EpisodeAction {
    EpisodeAction {
        id: timestamp,
        user_id: 1,
        device_id: 1,
        podcast_url: podcast.to_string(),
        episode_url: episode.to_string(),
        action: "play".to_string(),
        timestamp,
        started: None,
        position: Some(5),
        total: None,
        created_at: 0,
    }
}

#[test]
fn episode_actions_are_grouped_by_feed() {
    let actions = vec![
        action("feed-a", "e1", 9),
        action("feed-b", "e1", 8),
        action("feed-a", "e2", 7),
        action("feed-c", "e1", 6),
        action("feed-b", "e2", 5),
    ];
    let groups = group_by_podcast(&actions);
    let shape: Vec<(String, Vec<i64>)> = groups
        .into_iter()
        .map(|(feed, group)| (feed, group.iter().map(|a| a.timestamp).collect()))
        .collect();
    assert_eq!(
        shape,
        vec![
            ("feed-a".to_string(), vec![9, 7]),
            ("feed-b".to_string(), vec![8, 5]),
            ("feed-c".to_string(), vec![6]),
        ]
    );
    assert!(group_by_podcast(&vec![]).is_empty());
}

#[test]
fn episode_action_requests_are_for_the_caller_only() {
    let auth = AuthContext { user_id: 1, username: "alice".to_string() };
    let params = EpisodeActionQueryParams {
        since: Some(5),
        podcast: Some("p".to_string()),
        device: None,
        aggregated: Some(true),
    };
    let query = episode_action_query("alice", &auth, &params).unwrap();
    assert_eq!(query.since, Some(5));
    assert_eq!(query.podcast, Some("p".to_string()));
    assert_eq!(query.device, None);
    assert_eq!(query.aggregated, Some(true));
    assert!(matches!(
        episode_action_query("bob", &auth, &params),
        Err(AppError::Authorization)
    ));
}

#[test]
fn queries_have_a_condition_for_each_part_given() {
    let head = "SELECT ea.id, ea.user_id, ea.device_id as device_id_fk, d.device_id as device, ea.podcast_url, ea.episode_url, ea.action, ea.timestamp, ea.started, ea.position, ea.total, ea.created_at FROM episode_actions ea INNER JOIN devices d ON ea.device_id = d.id WHERE ea.user_id = ?";
    let query = |since: Option<i64>, podcast: Option<&str>, device: Option<&str>| EpisodeActionQuery {
        since,
        podcast: podcast.map(|s| s.to_string()),
        device: device.map(|s| s.to_string()),
        aggregated: None,
    };
    assert_eq!(
        list_actions_sql(&query(None, None, None)),
        format!("{} ORDER BY ea.timestamp DESC", head)
    );
    assert_eq!(
        list_actions_sql(&query(Some(1), None, Some("d"))),
        format!("{} AND ea.timestamp >= ? AND d.device_id = ? ORDER BY ea.timestamp DESC", head)
    );
    assert_eq!(
        list_actions_sql(&query(Some(1), Some("p"), Some("d"))),
        format!(
            "{} AND ea.timestamp >= ? AND ea.podcast_url = ? AND d.device_id = ? ORDER BY ea.timestamp DESC",
            head
        )
    );
    assert_eq!(
        select_settings_sql(true, false, true),
        "SELECT id, user_id, scope, podcast_url, device_id, episode_url, key, value, created_at, updated_at FROM settings WHERE user_id = ? AND scope = ? AND podcast_url = ? AND device_id IS NULL AND episode_url = ? ORDER BY key ASC"
    );
    assert_eq!(
        delete_setting_sql(false, true, false),
        "DELETE FROM settings WHERE user_id = ? AND scope = ? AND podcast_url IS NULL AND device_id = ? AND episode_url IS NULL AND key = ?"
    );
}

#[test]
fn stored_values_are_shown_as_json() {
    assert_eq!(stored_value_as_json("42"), "42");
    assert_eq!(stored_value_as_json("{\"a\": [1, true]}"), "{\"a\": [1, true]}");
    assert_eq!(stored_value_as_json("\"quoted\""), "\"quoted\"");
    assert_eq!(stored_value_as_json("plain text"), "\"plain text\"");
    assert_eq!(stored_value_as_json("say \"hi\"\n"), "\"say \\\"hi\\\"\\n\"");
    assert_eq!(stored_value_as_json(""), "\"\"");
    let setting = |key: &str, value: &str| Setting {
        id: 1,
        user_id: 1,
        scope: "account".to_string(),
        podcast_url: None,
        device_id: None,
        episode_url: None,
        key: key.to_string(),
        value: value.to_string(),
        created_at: 0,
        updated_at: 0,
    };
    assert_eq!(
        settings_as_json(&vec![setting("a", "true"), setting("b", "yes")]),
        vec![
            ("a".to_string(), "true".to_string()),
            ("b".to_string(), "\"yes\"".to_string()),
        ]
    );
}

fn entry(key: &str, as_bool: Option<bool>, as_str: Option<&str>) -> SettingEntry {
    SettingEntry {
        key: key.to_string(),
        as_bool,
        as_str: as_str.map(|s| s.to_string()),
    }
}

#[test]
fn saving_episode_settings_keeps_the_favorites() {
    let episode = Some("http://p/e1".to_string());
    let podcast = Some("http://p".to_string());
    let set = Some(vec![
        entry("title", None, Some("Episode one")),
        entry("is_favorite", Some(true), None),
        entry("website", Some(false), None),
        entry("released", None, Some("2024")),
    ]);
    let changes = favorite_changes("episode", &podcast, &episode, &set, &None);
    assert_eq!(changes.len(), 1);
    match &changes[0] {
        FavoriteChange::Add(details) => {
            assert_eq!(details.podcast_url, "http://p");
            assert_eq!(details.episode_url, "http://p/e1");
            assert_eq!(details.title, Some("Episode one".to_string()));
            assert_eq!(details.podcast_title, None);
            assert_eq!(details.description, None);
            assert_eq!(details.website, None);
            assert_eq!(details.released, Some("2024".to_string()));
        }
        _ => panic!("expected a favorite to be added"),
    }

    // Without a podcast the favorite is kept under the empty URL.
    let changes = favorite_changes("episode", &None, &episode, &set, &None);
    assert!(matches!(&changes[0], FavoriteChange::Add(d) if d.podcast_url.is_empty()));

    // Anything but `true` unmarks; removing the setting unmarks too.
    for value in [Some(false), None] {
        let set = Some(vec![entry("is_favorite", value, Some("true"))]);
        let remove = Some(vec!["other".to_string(), "is_favorite".to_string()]);
        let changes = favorite_changes("episode", &podcast, &episode, &set, &remove);
        assert_eq!(changes.len(), 2);
        assert!(matches!(&changes[0], FavoriteChange::Remove(url) if url == "http://p/e1"));
        assert!(matches!(&changes[1], FavoriteChange::Remove(url) if url == "http://p/e1"));
    }

    // Marked and removed in one request: first the one, then the other.
    let remove = Some(vec!["is_favorite".to_string()]);
    let changes = favorite_changes("episode", &podcast, &episode, &set, &remove);
    assert!(matches!(&changes[0], FavoriteChange::Add(_)));
    assert!(matches!(&changes[1], FavoriteChange::Remove(_)));

    // Other scopes, and requests that name no episode, change nothing.
    assert!(favorite_changes("podcast", &podcast, &episode, &set, &remove).is_empty());
    assert!(favorite_changes("episode", &podcast, &None, &set, &remove).is_empty());
    assert!(favorite_changes("episode", &podcast, &episode, &None, &None).is_empty());
    let unrelated = Some(vec![entry("volume", None, None)]);
    assert!(favorite_changes("episode", &podcast, &episode, &unrelated, &Some(vec![])).is_empty());
}
