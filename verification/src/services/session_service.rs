//! Login sessions: opening them, checking them, and clearing them away.

use vstd::prelude::*;
use crate::error::AppError;
use crate::repository::session_repository::{
    session_with_id,
    sessions_alive,
    sessions_without,
    SessionRepository,
};

verus! {

/// How long a session lasts: thirty days, in seconds.
pub const SESSION_DURATION_SECS: i64 = 30 * 24 * 60 * 60;

/// Calls `Uuid::new_v4` and writes the identifier in its usual form. It is
/// made at random, so nothing is claimed of it.
#[verifier::external_body]
fn new_session_id() -> (r: String) {
    uuid::Uuid::new_v4().to_string()
}

/// Opens, checks and closes login sessions.
pub struct SessionService {
    pub session_repo: SessionRepository,
}

impl SessionService {
    /// The service over the given sessions.
    pub fn new(session_repo: SessionRepository) -> (r: SessionService)
        ensures
            r.session_repo == session_repo,
    {
        SessionService { session_repo }
    }

    /// Opens a session under the given id, lasting thirty days from
    /// `current_time`. An id that is in use is an internal error, and
    /// nothing changes.
    pub fn create_session_with_id(&mut self, session_id: String, user_id: i64, current_time: i64) -> (r:
        Result<String, AppError>)
        requires
            old(self).session_repo.wf(),
            current_time + SESSION_DURATION_SECS <= i64::MAX,
        ensures
            final(self).session_repo.wf(),
            match session_with_id(old(self).session_repo@, session_id@) {
                None => {
                    let rows = final(self).session_repo@;
                    &&& r matches Ok(id) && id@ == session_id@
                    &&& rows.len() == old(self).session_repo@.len() + 1
                    &&& rows.drop_last() == old(self).session_repo@
                    &&& rows.last().id@ == session_id@
                    &&& rows.last().user_id == user_id
                    &&& rows.last().expires_at == current_time + SESSION_DURATION_SECS
                    &&& rows.last().created_at == current_time
                },
                Some(_) => {
                    &&& r matches Err(AppError::Internal(msg)) && msg@
                        == "Database error: "@ + "session id is in use"@
                    &&& final(self).session_repo@ == old(self).session_repo@
                },
            },
    {
        let expires_at: i64 = current_time + SESSION_DURATION_SECS;
        match self.session_repo.create(session_id.as_str(), user_id, expires_at, current_time) {
            Ok(_) => Ok(session_id),
            Err(e) => Err(AppError::Internal(e.to_string())),
        }
    }

    /// Opens a session under an id made at random, lasting thirty days from
    /// `current_time`, and returns the id.
    pub fn create_session(&mut self, user_id: i64, current_time: i64) -> (r: Result<String, AppError>)
        requires
            old(self).session_repo.wf(),
            current_time + SESSION_DURATION_SECS <= i64::MAX,
        ensures
            final(self).session_repo.wf(),
            match r {
                Ok(id) => {
                    let rows = final(self).session_repo@;
                    &&& session_with_id(old(self).session_repo@, id@) is None
                    &&& rows.len() == old(self).session_repo@.len() + 1
                    &&& rows.drop_last() == old(self).session_repo@
                    &&& rows.last().id@ == id@
                    &&& rows.last().user_id == user_id
                    &&& rows.last().expires_at == current_time + SESSION_DURATION_SECS
                    &&& rows.last().created_at == current_time
                },
                Err(e) => e is Internal && final(self).session_repo@ == old(self).session_repo@,
            },
    {
        let session_id: String = new_session_id();
        self.create_session_with_id(session_id, user_id, current_time)
    }

    /// Checks a session and returns the key of its user. An unknown session
    /// is an authentication failure. So is a session that expired before
    /// `current_time`, and such a session is removed.
    pub fn validate_session(&mut self, session_id: &str, current_time: i64) -> (r: Result<
        i64,
        AppError,
    >)
        requires
            old(self).session_repo.wf(),
        ensures
            final(self).session_repo.wf(),
            match session_with_id(old(self).session_repo@, session_id@) {
                None => {
                    &&& r matches Err(AppError::Authentication)
                    &&& final(self).session_repo@ == old(self).session_repo@
                },
                Some(session) => if session.expires_at < current_time {
                    &&& r matches Err(AppError::Authentication)
                    &&& final(self).session_repo@ == sessions_without(
                        old(self).session_repo@,
                        session_id@,
                    )
                } else {
                    &&& r == Ok::<i64, AppError>(session.user_id)
                    &&& final(self).session_repo@ == old(self).session_repo@
                },
            },
    {
        match self.session_repo.find_by_id(session_id) {
            None => Err(AppError::Authentication),
            Some(session) => {
                if session.expires_at < current_time {
                    self.session_repo.delete(session_id);
                    Err(AppError::Authentication)
                } else {
                    Ok(session.user_id)
                }
            },
        }
    }

    /// Closes a session; nothing changes if there is none with that id.
    pub fn delete_session(&mut self, session_id: &str)
        requires
            old(self).session_repo.wf(),
        ensures
            final(self).session_repo.wf(),
            final(self).session_repo@ == sessions_without(old(self).session_repo@, session_id@),
    {
        self.session_repo.delete(session_id);
    }

    /// Removes the sessions that expired before `current_time` and returns
    /// how many they were.
    pub fn cleanup_expired_sessions(&mut self, current_time: i64) -> (r: u64)
        requires
            old(self).session_repo.wf(),
        ensures
            final(self).session_repo.wf(),
            final(self).session_repo@ == sessions_alive(old(self).session_repo@, current_time),
            r == old(self).session_repo@.len() - final(self).session_repo@.len(),
    {
        self.session_repo.delete_expired(current_time)
    }
}

} // verus!
