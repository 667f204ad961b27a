//! The requests about synchronisation groups.

use vstd::prelude::*;
use crate::error::AppError;
use crate::middleware::auth::AuthContext;
use crate::models::{DeviceSyncRequest, DeviceSyncStatus};
use crate::services::device_sync_service::{
    first_unknown,
    not_found_message,
    not_synchronized_of,
    synchronized_of,
    updated,
    DeviceSyncService,
};
use crate::text::{nested_views, views};

verus! {

/// Answers a request for the grouping of the caller's devices. The request
/// is refused when the caller is not the user named in it.
pub fn get_sync_status(username: &str, auth: &AuthContext, service: &DeviceSyncService) -> (r:
    Result<DeviceSyncStatus, AppError>)
    requires
        service.wf(),
    ensures
        if username@ != auth.username@ {
            r matches Err(AppError::Authentication)
        } else {
            &&& r matches Ok(status)
            &&& nested_views(status.synchronized@) == synchronized_of(
                service.device_repo@,
                auth.user_id,
                service.device_sync_repo.state(),
            )
            &&& views(status.not_synchronized@) == not_synchronized_of(
                service.device_repo@,
                auth.user_id,
                service.device_sync_repo.state(),
            )
        },
{
    if String::from_str(username) != auth.username {
        return Err(AppError::Authentication);
    }
    Ok(service.get_sync_status(auth.user_id))
}

/// Carries out a request to change the grouping of the caller's devices and
/// answers with the new status. The request is refused, and nothing changes,
/// when the caller is not the user named in it, when it names an unknown
/// device among two or more to be synchronized, or when the store could run
/// out of group ids.
pub fn update_sync_groups(
    username: &str,
    auth: &AuthContext,
    service: &mut DeviceSyncService,
    request: DeviceSyncRequest,
) -> (r: Result<DeviceSyncStatus, AppError>)
    requires
        old(service).wf(),
    ensures
        final(service).wf(),
        final(service).device_repo == old(service).device_repo,
        if username@ != auth.username@ {
            &&& r matches Err(AppError::Authentication)
            &&& final(service).device_sync_repo.state() == old(service).device_sync_repo.state()
        } else {
            match first_unknown(
                old(service).device_repo@,
                auth.user_id,
                nested_views(request.synchronize@),
            ) {
                Some(name) => {
                    &&& r matches Err(AppError::BadRequest(msg))
                    &&& msg@ == not_found_message(name)
                    &&& final(service).device_sync_repo.state() == old(
                        service,
                    ).device_sync_repo.state()
                },
                None => if old(service).device_sync_repo.next_group_id()
                    + request.synchronize@.len() > i64::MAX {
                    &&& r matches Err(AppError::Internal(msg)) && msg@
                        == "sync group ids are used up"@
                    &&& final(service).device_sync_repo.state() == old(
                        service,
                    ).device_sync_repo.state()
                } else {
                    &&& r matches Ok(status)
                    &&& final(service).device_sync_repo.state() == updated(
                        old(service).device_repo@,
                        auth.user_id,
                        old(service).device_sync_repo.state(),
                        nested_views(request.synchronize@),
                        views(request.stop_synchronize@),
                    )
                    &&& nested_views(status.synchronized@) == synchronized_of(
                        final(service).device_repo@,
                        auth.user_id,
                        final(service).device_sync_repo.state(),
                    )
                    &&& views(status.not_synchronized@) == not_synchronized_of(
                        final(service).device_repo@,
                        auth.user_id,
                        final(service).device_sync_repo.state(),
                    )
                },
            }
        },
{
    if String::from_str(username) != auth.username {
        return Err(AppError::Authentication);
    }
    service.update_sync_groups(auth.user_id, request.synchronize, request.stop_synchronize)
}

} // verus!
