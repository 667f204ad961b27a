//! Logging in and out: opening a session and handing its id to the client
//! in a cookie, and closing it again.

use vstd::prelude::*;
use crate::error::AppError;
use crate::middleware::auth::{extract_session_from_cookie, session_in_cookies, AuthContext};
use crate::repository::session_repository::{session_with_id, sessions_without};
use crate::services::session_service::{SessionService, SESSION_DURATION_SECS};

verus! {

/// The body of a request to log out.
#[derive(Debug)]
pub struct LogoutRequest {
    _session_id: Option<String>,
}

impl LogoutRequest {
    /// The session id that the request carries, if any.
    pub closed spec fn session_id(&self) -> Option<String> {
        self._session_id
    }

    /// A request to log out, with the session id that it carries, if any.
    pub fn new(session_id: Option<String>) -> (r: LogoutRequest)
        ensures
            r.session_id() == session_id,
    {
        LogoutRequest { _session_id: session_id }
    }
}

/// The cookie that hands a session id to the client: valid for thirty days,
/// for the whole site, hidden from scripts.
pub open spec fn session_cookie(session_id: Seq<char>) -> Seq<char> {
    "sessionid="@ + session_id + "; Max-Age=2592000; Path=/; HttpOnly; SameSite=Lax"@
}

/// The cookie that makes the client forget its session id.
pub open spec fn cleared_cookie() -> Seq<char> {
    "sessionid=; Max-Age=0; Path=/; HttpOnly; SameSite=Lax"@
}

/// Opens a session for the authenticated caller and returns the cookie that
/// carries its id.
pub fn login(auth: &AuthContext, session_service: &mut SessionService, current_time: i64) -> (r:
    Result<String, AppError>)
    requires
        old(session_service).session_repo.wf(),
        current_time + SESSION_DURATION_SECS <= i64::MAX,
    ensures
        final(session_service).session_repo.wf(),
        match r {
            Ok(cookie) => {
                let rows = final(session_service).session_repo@;
                &&& rows.len() == old(session_service).session_repo@.len() + 1
                &&& rows.drop_last() == old(session_service).session_repo@
                &&& session_with_id(old(session_service).session_repo@, rows.last().id@) is None
                &&& rows.last().user_id == auth.user_id
                &&& rows.last().expires_at == current_time + SESSION_DURATION_SECS
                &&& rows.last().created_at == current_time
                &&& cookie@ == session_cookie(rows.last().id@)
            },
            Err(e) => e is Internal && final(session_service).session_repo@ == old(
                session_service,
            ).session_repo@,
        },
{
    match session_service.create_session(auth.user_id, current_time) {
        Ok(session_id) => Ok(
            String::from_str("sessionid=").concat(session_id.as_str()).concat(
                "; Max-Age=2592000; Path=/; HttpOnly; SameSite=Lax",
            ),
        ),
        Err(e) => Err(e),
    }
}

/// Closes the session that the cookie header names, if it names one, and
/// returns the cookie that makes the client forget it.
pub fn logout(cookie_header: Option<&str>, session_service: &mut SessionService) -> (r: String)
    requires
        old(session_service).session_repo.wf(),
    ensures
        final(session_service).session_repo.wf(),
        r@ == cleared_cookie(),
        final(session_service).session_repo@ == (match cookie_header {
            Some(header) => match session_in_cookies(header@) {
                Some(id) => sessions_without(old(session_service).session_repo@, id),
                None => old(session_service).session_repo@,
            },
            None => old(session_service).session_repo@,
        }),
{
    match cookie_header {
        Some(header) => {
            match extract_session_from_cookie(header) {
                Some(session_id) => {
                    session_service.delete_session(session_id.as_str());
                },
                None => {},
            }
        },
        None => {},
    }
    String::from_str("sessionid=; Max-Age=0; Path=/; HttpOnly; SameSite=Lax")
}

} // verus!
