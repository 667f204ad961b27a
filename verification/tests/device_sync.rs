use pod_synq::error::AppError;
use pod_synq::repository::{DeviceRepository, DeviceSyncRepository};
use pod_synq::services::DeviceSyncService;

const USER: i64 = 7;

fn names(list: &[&str]) -> Vec<String> {
    list.iter().map(|s| s.to_string()).collect()
}

fn service_with(devices: &[&str]) -> DeviceSyncService {
    let mut repo = DeviceRepository::new();
    for (i, name) in devices.iter().enumerate() {
        let id = repo.create(USER, name, None, None, 1000 + i as i64).unwrap();
        assert_eq!(id, i as i64 + 1);
    }
    DeviceSyncService::new(DeviceSyncRepository::new(), repo)
}

#[test]
fn status_of_ungrouped_devices_lists_all_as_not_synchronized() {
    let service = service_with(&["d1", "d2", "d3"]);
    let status = service.get_sync_status(USER);
    assert!(status.synchronized.is_empty());
    assert_eq!(status.not_synchronized, names(&["d1", "d2", "d3"]));
}

#[test]
fn synchronizing_two_devices_makes_one_group() {
    let mut service = service_with(&["d1", "d2", "d3"]);
    let status = service
        .update_sync_groups(USER, vec![names(&["d2", "d1"])], vec![])
        .unwrap();
    assert_eq!(status.synchronized, vec![names(&["d1", "d2"])]);
    assert_eq!(status.not_synchronized, names(&["d3"]));
    assert_eq!(service.device_sync_repo.get_user_groups(USER), vec![1]);
    assert_eq!(service.device_sync_repo.get_group_devices(1), vec![1, 2]);
}

#[test]
fn stopping_one_of_two_suppresses_the_remaining_singleton() {
    let mut service = service_with(&["d1", "d2"]);
    service
        .update_sync_groups(USER, vec![names(&["d1", "d2"])], vec![])
        .unwrap();
    let status = service
        .update_sync_groups(USER, vec![], names(&["d2"]))
        .unwrap();
    assert_eq!(status.synchronized, Vec::<Vec<String>>::new());
    assert_eq!(status.not_synchronized, names(&["d1", "d2"]));
    // The group still exists with its one member.
    assert_eq!(service.device_sync_repo.get_user_groups(USER), vec![1]);
    assert_eq!(service.device_sync_repo.get_device_group(1), Some(1));
    assert_eq!(service.device_sync_repo.get_device_group(2), None);
}

#[test]
fn merging_is_transitive() {
    let mut service = service_with(&["d1", "d2", "d3"]);
    service
        .update_sync_groups(USER, vec![names(&["d1", "d2"])], vec![])
        .unwrap();
    let status = service
        .update_sync_groups(USER, vec![names(&["d2", "d3"])], vec![])
        .unwrap();
    assert_eq!(status.synchronized, vec![names(&["d1", "d2", "d3"])]);
    assert!(status.not_synchronized.is_empty());
}

#[test]
fn both_requests_in_one_call_are_carried_out_in_order() {
    let mut service = service_with(&["d1", "d2", "d3"]);
    let status = service
        .update_sync_groups(
            USER,
            vec![names(&["d1", "d2"]), names(&["d2", "d3"])],
            vec![],
        )
        .unwrap();
    assert_eq!(status.synchronized, vec![names(&["d1", "d2", "d3"])]);
    assert_eq!(service.device_sync_repo.get_user_groups(USER), vec![1]);
}

#[test]
fn merge_keeps_the_group_with_the_lowest_id() {
    let mut service = service_with(&["a", "b", "c", "d"]);
    service
        .update_sync_groups(
            USER,
            vec![names(&["a", "b"]), names(&["c", "d"])],
            vec![],
        )
        .unwrap();
    assert_eq!(service.device_sync_repo.get_user_groups(USER), vec![1, 2]);
    let status = service
        .update_sync_groups(USER, vec![names(&["d", "a"])], vec![])
        .unwrap();
    assert_eq!(status.synchronized, vec![names(&["a", "b", "c", "d"])]);
    assert_eq!(service.device_sync_repo.get_user_groups(USER), vec![1]);
    for device in 1..=4 {
        assert_eq!(service.device_sync_repo.get_device_group(device), Some(1));
    }
}

#[test]
fn requests_with_fewer_than_two_devices_are_ignored() {
    let mut service = service_with(&["d1", "d2"]);
    let status = service
        .update_sync_groups(
            USER,
            vec![
                names(&["d1"]),
                vec![],
                names(&["nobody"]),
                names(&["d2", "d2"]),
                names(&["nobody", "nobody", "nobody"]),
            ],
            vec![],
        )
        .unwrap();
    assert!(status.synchronized.is_empty());
    assert_eq!(status.not_synchronized, names(&["d1", "d2"]));
    assert!(service.device_sync_repo.get_user_groups(USER).is_empty());
}

#[test]
fn unknown_device_is_a_bad_request_and_nothing_changes() {
    let mut service = service_with(&["d1", "d2", "d3"]);
    service
        .update_sync_groups(USER, vec![names(&["d1", "d2"])], vec![])
        .unwrap();
    let result = service.update_sync_groups(
        USER,
        vec![names(&["d2", "d3"]), names(&["d1", "ghost", "other"])],
        names(&["d1"]),
    );
    match result {
        Err(AppError::BadRequest(msg)) => assert_eq!(msg, "Device 'ghost' not found"),
        _ => panic!("expected a bad request"),
    }
    let status = service.get_sync_status(USER);
    assert_eq!(status.synchronized, vec![names(&["d1", "d2"])]);
    assert_eq!(status.not_synchronized, names(&["d3"]));
}

#[test]
fn stopping_an_unknown_device_is_passed_over() {
    let mut service = service_with(&["d1", "d2"]);
    service
        .update_sync_groups(USER, vec![names(&["d1", "d2"])], vec![])
        .unwrap();
    let status = service
        .update_sync_groups(USER, vec![], names(&["ghost"]))
        .unwrap();
    assert_eq!(status.synchronized, vec![names(&["d1", "d2"])]);
}

#[test]
fn stop_is_applied_before_synchronize() {
    let mut service = service_with(&["d1", "d2", "d3"]);
    service
        .update_sync_groups(USER, vec![names(&["d1", "d2"])], vec![])
        .unwrap();
    let status = service
        .update_sync_groups(USER, vec![names(&["d2", "d3"])], names(&["d2"]))
        .unwrap();
    // d2 left group 1 first, so d2 and d3 meet in a new group and d1 stays alone.
    assert_eq!(status.synchronized, vec![names(&["d2", "d3"])]);
    assert_eq!(status.not_synchronized, names(&["d1"]));
    assert_eq!(service.device_sync_repo.get_user_groups(USER), vec![1, 2]);
}

#[test]
fn status_divides_the_devices_of_a_user() {
    let mut service = service_with(&["a", "b", "c", "d", "e"]);
    let status = service
        .update_sync_groups(
            USER,
            vec![names(&["a", "c"]), names(&["e", "b"])],
            names(&["d"]),
        )
        .unwrap();
    let mut seen: Vec<String> = status.not_synchronized.clone();
    for group in &status.synchronized {
        assert!(group.len() >= 2);
        seen.extend(group.iter().cloned());
    }
    seen.sort();
    assert_eq!(seen, names(&["a", "b", "c", "d", "e"]));
}

#[test]
fn devices_of_other_users_are_not_shown() {
    let mut repo = DeviceRepository::new();
    repo.create(USER, "mine", None, None, 1).unwrap();
    repo.create(USER + 1, "theirs", None, None, 2).unwrap();
    repo.create(USER, "also-mine", None, None, 3).unwrap();
    let mut service = DeviceSyncService::new(DeviceSyncRepository::new(), repo);
    let status = service
        .update_sync_groups(USER, vec![names(&["mine", "also-mine"])], vec![])
        .unwrap();
    assert_eq!(status.synchronized, vec![names(&["mine", "also-mine"])]);
    let other = service.get_sync_status(USER + 1);
    assert!(other.synchronized.is_empty());
    assert_eq!(other.not_synchronized, names(&["theirs"]));
    // A name is looked up among the caller's devices only.
    let result = service.update_sync_groups(USER, vec![names(&["mine", "theirs"])], vec![]);
    assert!(matches!(result, Err(AppError::BadRequest(_))));
}

#[test]
fn group_store_primitives() {
    let mut repo = DeviceSyncRepository::new();
    let g1 = repo.create_group(USER).unwrap();
    let g2 = repo.create_group(USER).unwrap();
    let g3 = repo.create_group(USER + 1).unwrap();
    assert_eq!((g1, g2, g3), (1, 2, 3));
    assert_eq!(repo.get_user_groups(USER), vec![1, 2]);
    assert_eq!(repo.get_user_groups(USER + 1), vec![3]);

    assert!(repo.add_device_to_group(g1, 20).is_ok());
    assert!(repo.add_device_to_group(g1, 10).is_ok());
    assert!(repo.add_device_to_group(g2, 30).is_ok());
    // A device is in one group at most, and a group must exist.
    assert!(matches!(repo.add_device_to_group(g2, 10), Err(AppError::Database(_))));
    assert!(matches!(repo.add_device_to_group(99, 40), Err(AppError::Database(_))));
    assert_eq!(repo.get_group_devices(g1), vec![10, 20]);
    assert_eq!(repo.get_device_group(10), Some(g1));
    assert_eq!(repo.get_device_group(40), None);

    assert!(repo.merge_groups(g1, g2).is_ok());
    assert_eq!(repo.get_group_devices(g1), vec![10, 20, 30]);
    assert_eq!(repo.get_user_groups(USER), vec![1]);
    assert!(matches!(repo.merge_groups(g2, g1), Err(AppError::Database(_))));
    assert_eq!(repo.get_group_devices(g1), vec![10, 20, 30]);

    repo.remove_device_from_group(20);
    repo.remove_device_from_group(20);
    assert_eq!(repo.get_group_devices(g1), vec![10, 30]);

    repo.delete_group(g1);
    assert!(repo.get_user_groups(USER).is_empty());
    assert_eq!(repo.get_device_group(10), None);
    assert_eq!(repo.peek_next_group_id(), 4);
}
