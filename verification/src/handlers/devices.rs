//! The requests about devices.

use vstd::prelude::*;
use crate::error::AppError;
use crate::middleware::auth::AuthContext;
use crate::models::{Device, EpisodeActionQuery};
use crate::repository::device_repository::{devices_of, find_named};
use crate::repository::subscription_repository::{
    active_keys,
    added_urls,
    answer,
    capped,
    removed_urls,
    Selection,
};
use crate::services::device_service::{device_missing_message, DeviceService};
use crate::services::subscription_service::SubscriptionService;
use crate::text::{decimal, i64_to_string, views};

verus! {

/// A device as it is shown to clients.
#[derive(Debug)]
pub struct DeviceInfo {
    pub id: String,
    pub caption: String,
    pub device_type: String,
    pub subscriptions: i64,
}

/// A request to change what is known of a device.
#[derive(Debug)]
pub struct UpdateDeviceRequest {
    pub caption: Option<String>,
    pub device_type: Option<String>,
}

/// The parameters of a request for what changed on a device.
#[derive(Debug)]
pub struct UpdatesQueryParams {
    pub since: Option<i64>,
    pub include_actions: Option<bool>,
}

/// What changed on a device since a given time.
#[derive(Debug)]
pub struct DeviceUpdatesResponse {
    pub add: Vec<String>,
    pub remove: Vec<String>,
    pub timestamp: i64,
}

/// The info `info` shows the device `device` with `count` subscriptions.
pub open spec fn shows_device(info: DeviceInfo, device: Device, count: i64) -> bool {
    &&& info.id == device.device_id
    &&& info.caption@ == (match device.caption {
        Some(c) => c@,
        None => "Unknown Device"@,
    })
    &&& info.device_type@ == (match device.device_type {
        Some(t) => t@,
        None => "unknown"@,
    })
    &&& info.subscriptions == count
}

/// Answers a request for the caller's devices: each device with its caption
/// and type, or "Unknown Device" and "unknown" where they are missing, and
/// with the number of feeds it is subscribed to; the most recently
/// registered device first. The request is refused when the caller is not
/// the user named in it.
pub fn list_devices(
    username: &str,
    auth: &AuthContext,
    device_service: &DeviceService,
    subscription_service: &SubscriptionService,
) -> (r: Result<Vec<DeviceInfo>, AppError>)
    requires
        device_service.device_repo.wf(),
        subscription_service.sub_repo.wf(),
    ensures
        if username@ != auth.username@ {
            r matches Err(AppError::Authorization)
        } else {
            let devices = devices_of(device_service.device_repo@, auth.user_id);
            &&& r matches Ok(list)
            &&& list@.len() == devices.len()
            &&& forall|i: int|
                0 <= i < devices.len() ==> shows_device(
                    #[trigger] list@[i],
                    devices[i],
                    capped(
                        active_keys(
                            subscription_service.sub_repo@,
                            auth.user_id,
                            Some(devices[i].id),
                        ).len(),
                    ),
                )
        },
{
    if String::from_str(username) != auth.username {
        return Err(AppError::Authorization);
    }
    let devices: Vec<Device> = device_service.list_user_devices(auth.user_id);
    let mut out: Vec<DeviceInfo> = Vec::new();
    let mut i: usize = 0;
    while i < devices.len()
        invariant
            subscription_service.sub_repo.wf(),
            i <= devices@.len(),
            out@.len() == i,
            forall|j: int|
                0 <= j < i ==> shows_device(
                    #[trigger] out@[j],
                    devices@[j],
                    capped(
                        active_keys(
                            subscription_service.sub_repo@,
                            auth.user_id,
                            Some(devices@[j].id),
                        ).len(),
                    ),
                ),
        decreases devices@.len() - i,
    {
        let device: &Device = &devices[i];
        let count: i64 = subscription_service.count_subscriptions(auth.user_id, Some(device.id));
        let caption: String = match &device.caption {
            Some(c) => c.clone(),
            None => String::from_str("Unknown Device"),
        };
        let device_type: String = match &device.device_type {
            Some(t) => t.clone(),
            None => String::from_str("unknown"),
        };
        out.push(
            DeviceInfo { id: device.device_id.clone(), caption, device_type, subscriptions: count },
        );
        i += 1;
    }
    Ok(out)
}

/// Carries out a request about one device of the caller: the device is
/// registered, with the caption and type given, if the user does not have
/// it yet; an existing device is left as it is. The request is refused, and
/// nothing changes, when the caller is not the user named in it.
pub fn update_device(
    username: &str,
    device_id: &str,
    auth: &AuthContext,
    device_service: &mut DeviceService,
    req: &UpdateDeviceRequest,
    now: i64,
) -> (r: Result<i64, AppError>)
    requires
        old(device_service).device_repo.wf(),
    ensures
        final(device_service).device_repo.wf(),
        if username@ != auth.username@ {
            &&& r matches Err(AppError::Authorization)
            &&& final(device_service).device_repo@ == old(device_service).device_repo@
        } else {
            match find_named(old(device_service).device_repo@, auth.user_id, device_id@) {
                Some(d) => r == Ok::<i64, AppError>(d.id) && final(device_service).device_repo@
                    == old(device_service).device_repo@,
                None => if old(device_service).device_repo.next_device_id() < i64::MAX {
                    let rows = final(device_service).device_repo@;
                    &&& r == Ok::<i64, AppError>(
                        old(device_service).device_repo.next_device_id() as i64,
                    )
                    &&& rows.drop_last() == old(device_service).device_repo@
                    &&& rows.len() == old(device_service).device_repo@.len() + 1
                    &&& rows.last().user_id == auth.user_id
                    &&& rows.last().device_id@ == device_id@
                    &&& rows.last().caption matches Some(c) && c@ == (match req.caption {
                        Some(given) => given@,
                        None => "Unknown Device"@,
                    })
                    &&& rows.last().device_type.is_some() == req.device_type.is_some()
                    &&& req.device_type matches Some(t) ==> rows.last().device_type.unwrap()@
                        == t@
                } else {
                    &&& r matches Err(AppError::Database(msg)) && msg@
                        == "device keys are used up"@
                    &&& final(device_service).device_repo@ == old(device_service).device_repo@
                },
            }
        },
{
    if String::from_str(username) != auth.username {
        return Err(AppError::Authorization);
    }
    let caption: Option<&str> = match &req.caption {
        Some(c) => Some(c.as_str()),
        None => None,
    };
    let device_type: Option<&str> = match &req.device_type {
        Some(t) => Some(t.as_str()),
        None => None,
    };
    device_service.get_or_create_device(auth.user_id, device_id, caption, device_type, now)
}

/// The request for the episode actions that belong to an answer about a
/// device's updates: none unless the actions are asked for; else the
/// actions of that device since the time asked for, or since the beginning.
pub fn device_actions_query(params: &UpdatesQueryParams, device: &Device) -> (r: Option<
    EpisodeActionQuery,
>)
    ensures
        match r {
            None => params.include_actions != Some(true),
            Some(query) => {
                &&& params.include_actions == Some(true)
                &&& query.since == Some(match params.since {
                    Some(t) => t,
                    None => 0i64,
                })
                &&& query.podcast is None
                &&& query.device matches Some(d) && d@ == decimal(device.id as int)
                &&& query.aggregated is None
            },
        },
{
    let wanted: bool = match params.include_actions {
        Some(b) => b,
        None => false,
    };
    if !wanted {
        return None;
    }
    let since: i64 = match params.since {
        Some(t) => t,
        None => 0,
    };
    Some(
        EpisodeActionQuery {
            since: Some(since),
            podcast: None,
            device: Some(i64_to_string(device.id)),
            aggregated: None,
        },
    )
}

/// Answers a request for what changed on one device of the caller since
/// `params.since`, or since the beginning if that is not given. It is an
/// internal error if the user has no such device. The request is refused
/// when the caller is not the user named in it.
pub fn get_device_updates(
    username: &str,
    device_id: &str,
    params: &UpdatesQueryParams,
    auth: &AuthContext,
    device_service: &DeviceService,
    subscription_service: &SubscriptionService,
    now: i64,
) -> (r: Result<DeviceUpdatesResponse, AppError>)
    requires
        device_service.device_repo.wf(),
        subscription_service.sub_repo.wf(),
    ensures
        if username@ != auth.username@ {
            r matches Err(AppError::Authorization)
        } else {
            match find_named(device_service.device_repo@, auth.user_id, device_id@) {
                None => r matches Err(AppError::Internal(msg)) && msg@
                    == "Internal server error: "@ + device_missing_message(device_id@),
                Some(device) => {
                    let since = match params.since {
                        Some(t) => t,
                        None => 0i64,
                    };
                    let log = subscription_service.sub_repo@;
                    &&& r matches Ok(response)
                    &&& views(response.add@) == answer(
                        log,
                        auth.user_id,
                        device.id,
                        Selection::AddedSince(since),
                    )
                    &&& views(response.remove@) == answer(
                        log,
                        auth.user_id,
                        device.id,
                        Selection::RemovedSince(since),
                    )
                    &&& forall|url: Seq<char>|
                        #[trigger] views(response.add@).contains(url) <==> added_urls(
                            log,
                            auth.user_id,
                            device.id,
                            since,
                        ).contains(url)
                    &&& forall|url: Seq<char>|
                        #[trigger] views(response.remove@).contains(url) <==> removed_urls(
                            log,
                            auth.user_id,
                            device.id,
                            since,
                        ).contains(url)
                    &&& response.timestamp == now
                },
            }
        },
{
    if String::from_str(username) != auth.username {
        return Err(AppError::Authorization);
    }
    let device: Device = match device_service.find_by_device_id(auth.user_id, device_id) {
        Ok(device) => device,
        Err(e) => {
            return Err(AppError::Internal(e.to_string()));
        },
    };
    let since: i64 = match params.since {
        Some(t) => t,
        None => 0,
    };
    let (add, remove) = subscription_service.get_changes_since(auth.user_id, device.id, since);
    Ok(DeviceUpdatesResponse { add, remove, timestamp: now })
}

} // verus!
