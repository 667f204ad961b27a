//! Who is calling: the outcome of authentication, and the parsing of the
//! headers that carry a caller's credentials.

use vstd::prelude::*;
use vstd::utf8::{decode_utf8, valid_utf8};
use base64::Engine;
use crate::error::AppError;
use crate::repository::session_repository::{session_with_id, sessions_without};
use crate::repository::user_repository::user_with_id;
use crate::services::session_service::SessionService;
use crate::services::user_service::{credentials_verdict, UserService};
use crate::text::{
    chars_of,
    find_char,
    first_at,
    is_prefix,
    lemma_first_at,
    range_equals,
    slice_string,
    starts_with,
    trim_range,
    trimmed,
};

verus! {

/// The authenticated caller of a request.
#[derive(Debug)]
pub struct AuthContext {
    pub user_id: i64,
    pub username: String,
}

impl Clone for AuthContext {
    fn clone(&self) -> (r: AuthContext)
        ensures
            r == *self,
    {
        AuthContext { user_id: self.user_id, username: self.username.clone() }
    }
}

/// Lets a request pass only if the authenticated caller is the user that
/// the request names; otherwise the request is not authorized.
pub fn require_user(username: &str, auth: &AuthContext) -> (r: Result<(), AppError>)
    ensures
        if username@ == auth.username@ {
            r is Ok
        } else {
            r matches Err(AppError::Authorization)
        },
{
    if String::from_str(username) != auth.username {
        Err(AppError::Authorization)
    } else {
        Ok(())
    }
}

/// The session id that one cookie carries: the value of the cookie if its
/// name, with the white space around the cookie left out, is `sessionid`.
pub open spec fn cookie_session(cookie: Seq<char>) -> Option<Seq<char>> {
    let t = trimmed(cookie);
    let p = first_at(t, '=');
    if 0 <= p < t.len() && t.take(p) == "sessionid"@ {
        Some(t.skip(p + 1))
    } else {
        None
    }
}

/// The session id that a cookie header carries: that of the first of its
/// cookies, which are set apart by semicolons, that carries one.
pub open spec fn session_in_cookies(header: Seq<char>) -> Option<Seq<char>>
    decreases header.len(),
{
    let p = first_at(header, ';');
    if p < 0 || p >= header.len() {
        cookie_session(header)
    } else {
        match cookie_session(header.take(p)) {
            Some(id) => Some(id),
            None => session_in_cookies(header.skip(p + 1)),
        }
    }
}

/// Finds the session id in a cookie header.
pub fn extract_session_from_cookie(cookie_header: &str) -> (r: Option<String>)
    ensures
        match r {
            Some(id) => session_in_cookies(cookie_header@) == Some(id@),
            None => session_in_cookies(cookie_header@) is None,
        },
{
    let text: Vec<char> = chars_of(cookie_header);
    let name: Vec<char> = chars_of("sessionid");
    let n: usize = text.len();
    let mut pos: usize = 0;
    proof {
        assert(text@.subrange(0, n as int) =~= cookie_header@);
    }
    loop
        invariant
            text@ == cookie_header@,
            name@ == "sessionid"@,
            n == text@.len(),
            pos <= n,
            session_in_cookies(text@.subrange(pos as int, n as int)) == session_in_cookies(
                cookie_header@,
            ),
        decreases n - pos,
    {
        let ghost rest = text@.subrange(pos as int, n as int);
        let end: usize = find_char(&text, ';', pos, n);
        let ghost cookie = text@.subrange(pos as int, end as int);
        let (a, b) = trim_range(&text, pos, end);
        let eq: usize = find_char(&text, '=', a, b);
        proof {
            lemma_first_at(rest, ';');
            assert(rest.take(end - pos) =~= cookie);
            if end == n {
                assert(cookie =~= rest);
            }
            let t = text@.subrange(a as int, b as int);
            lemma_first_at(t, '=');
            assert(t.take(eq - a) =~= text@.subrange(a as int, eq as int));
            if eq < b {
                assert(t.skip(eq - a + 1) =~= text@.subrange(eq + 1, b as int));
            }
        }
        if eq < b && range_equals(&text, a, eq, &name) {
            return Some(slice_string(cookie_header, eq + 1, b));
        }
        if end == n {
            return None;
        }
        proof {
            assert(rest.skip(end - pos + 1) =~= text@.subrange(end + 1, n as int));
        }
        pos = end + 1;
    }
}

/// The bytes that a text stands for in standard Base64, with padding; none
/// if the text is no such encoding.
pub uninterp spec fn base64_decoded(encoded: Seq<char>) -> Option<Seq<u8>>;

/// Calls the `decode` method of the `base64` crate's `STANDARD` engine. The
/// outcome depends on the text alone; the contract gives it its name.
#[verifier::external_body]
fn decode_base64(encoded: &str) -> (r: Option<Vec<u8>>)
    ensures
        match r {
            Some(bytes) => base64_decoded(encoded@) == Some(bytes@),
            None => base64_decoded(encoded@) is None,
        },
{
    base64::engine::general_purpose::STANDARD.decode(encoded).ok()
}

/// Calls `String::from_utf8`, which accepts exactly the byte sequences that
/// are valid UTF-8 and gives the text that they encode.
#[verifier::external_body]
fn text_from_utf8(bytes: Vec<u8>) -> (r: Option<String>)
    ensures
        match r {
            Some(text) => valid_utf8(bytes@) && text@ == decode_utf8(bytes@),
            None => !valid_utf8(bytes@),
        },
{
    String::from_utf8(bytes).ok()
}

/// The name and the password that a `Basic` authorization header carries:
/// what stands before and behind the first colon of the text that the
/// header holds in Base64.
pub open spec fn basic_credentials(header: Seq<char>) -> Option<(Seq<char>, Seq<char>)> {
    if !is_prefix("Basic "@, header) {
        None
    } else {
        match base64_decoded(header.skip(6)) {
            None => None,
            Some(bytes) => if !valid_utf8(bytes) {
                None
            } else {
                let text = decode_utf8(bytes);
                let p = first_at(text, ':');
                if 0 <= p < text.len() {
                    Some((text.take(p), text.skip(p + 1)))
                } else {
                    None
                }
            },
        }
    }
}

/// Reads the name and the password from a `Basic` authorization header. A
/// header of another kind, one that is not Base64 of a UTF-8 text, and one
/// without a colon in that text are all authentication failures.
pub fn parse_basic_auth(auth_header: &str) -> (r: Result<(String, String), AppError>)
    ensures
        match basic_credentials(auth_header@) {
            Some(pair) => r matches Ok(found) && found.0@ == pair.0 && found.1@ == pair.1,
            None => r matches Err(AppError::Authentication),
        },
{
    proof {
        reveal_strlit("Basic ");
    }
    if !starts_with(auth_header, "Basic ") {
        return Err(AppError::Authentication);
    }
    let length: usize = auth_header.unicode_len();
    let encoded: String = slice_string(auth_header, 6, length);
    proof {
        assert(encoded@ =~= auth_header@.skip(6));
    }
    let decoded: Vec<u8> = match decode_base64(encoded.as_str()) {
        Some(bytes) => bytes,
        None => {
            return Err(AppError::Authentication);
        },
    };
    let credentials: String = match text_from_utf8(decoded) {
        Some(text) => text,
        None => {
            return Err(AppError::Authentication);
        },
    };
    let text: Vec<char> = chars_of(credentials.as_str());
    let n: usize = text.len();
    let colon: usize = find_char(&text, ':', 0, n);
    proof {
        assert(text@.subrange(0, n as int) =~= credentials@);
        lemma_first_at(credentials@, ':');
    }
    if colon == n {
        return Err(AppError::Authentication);
    }
    let username: String = slice_string(credentials.as_str(), 0, colon);
    let password: String = slice_string(credentials.as_str(), colon + 1, n);
    proof {
        assert(username@ =~= credentials@.take(colon as int));
        assert(password@ =~= credentials@.skip(colon + 1));
    }
    Ok((username, password))
}

/// The session id that an optional cookie header carries.
pub open spec fn cookie_session_id(cookie_header: Option<&str>) -> Option<Seq<char>> {
    match cookie_header {
        Some(header) => session_in_cookies(header@),
        None => None,
    }
}

/// The caller that a session id identifies at a given time: the user of the
/// session, if the session exists, has not expired, and its user exists.
pub open spec fn session_caller(service: AuthService, id: Option<Seq<char>>, time: i64) -> Option<
    (i64, Seq<char>),
> {
    match id {
        None => None,
        Some(id) => match session_with_id(service.session_service.session_repo@, id) {
            None => None,
            Some(session) => if session.expires_at < time {
                None
            } else {
                match user_with_id(service.user_service.user_repo@, session.user_id) {
                    Some(user) => Some((session.user_id, user.username@)),
                    None => None,
                }
            },
        },
    }
}

/// A session id names a session that expired before the given time.
pub open spec fn names_expired(service: AuthService, id: Option<Seq<char>>, time: i64) -> bool {
    id matches Some(id) && (session_with_id(service.session_service.session_repo@, id) matches Some(
        session,
    ) && session.expires_at < time)
}

/// What authentication by name and password comes to.
pub open spec fn basic_verdict(
    r: Result<AuthContext, AppError>,
    service: AuthService,
    auth_header: Option<&str>,
) -> bool {
    match auth_header {
        None => r matches Err(AppError::Authentication),
        Some(header) => match basic_credentials(header@) {
            None => r matches Err(AppError::Authentication),
            Some(pair) => match r {
                Ok(context) => context.username@ == pair.0 && credentials_verdict(
                    Ok(context.user_id),
                    service.user_service.user_repo@,
                    pair.0,
                    pair.1,
                ),
                Err(e) => credentials_verdict(
                    Err(e),
                    service.user_service.user_repo@,
                    pair.0,
                    pair.1,
                ),
            },
        },
    }
}

/// Finds out who is calling, from a session or from a name and a password.
pub struct AuthService {
    pub user_service: UserService,
    pub session_service: SessionService,
}

impl AuthService {
    /// The stores behind the service are consistent.
    pub open spec fn wf(&self) -> bool {
        self.user_service.user_repo.wf() && self.session_service.session_repo.wf()
    }

    /// The service over the given accounts and sessions.
    pub fn new(user_service: UserService, session_service: SessionService) -> (r: AuthService)
        ensures
            r.user_service == user_service,
            r.session_service == session_service,
    {
        AuthService { user_service, session_service }
    }

    /// Checks a name and a password, and returns the key of the account that
    /// they belong to.
    pub fn verify_credentials(&self, username: &str, password: &str) -> (r: Result<i64, AppError>)
        requires
            self.wf(),
        ensures
            credentials_verdict(r, self.user_service.user_repo@, username@, password@),
    {
        self.user_service.verify_credentials(username, password)
    }

    /// Checks a session and returns the key of its user; a session that
    /// expired before `current_time` is removed.
    pub fn verify_session(&mut self, session_id: &str, current_time: i64) -> (r: Result<i64, AppError>)
        requires
            old(self).wf(),
        ensures
            final(self).wf(),
            final(self).user_service == old(self).user_service,
            match session_with_id(old(self).session_service.session_repo@, session_id@) {
                None => {
                    &&& r matches Err(AppError::Authentication)
                    &&& final(self).session_service.session_repo@ == old(
                        self,
                    ).session_service.session_repo@
                },
                Some(session) => if session.expires_at < current_time {
                    &&& r matches Err(AppError::Authentication)
                    &&& final(self).session_service.session_repo@ == sessions_without(
                        old(self).session_service.session_repo@,
                        session_id@,
                    )
                } else {
                    &&& r == Ok::<i64, AppError>(session.user_id)
                    &&& final(self).session_service.session_repo@ == old(
                        self,
                    ).session_service.session_repo@
                },
            },
    {
        self.session_service.validate_session(session_id, current_time)
    }

    /// The name of the account with key `user_id`; an authentication failure
    /// if there is none.
    pub fn get_username_by_id(&self, user_id: i64) -> (r: Result<String, AppError>)
        requires
            self.wf(),
        ensures
            match user_with_id(self.user_service.user_repo@, user_id) {
                Some(user) => r matches Ok(name) && name@ == user.username@,
                None => r matches Err(AppError::Authentication),
            },
    {
        match self.user_service.find_by_id(user_id) {
            Some(user) => Ok(user.username),
            None => Err(AppError::Authentication),
        }
    }

    /// Finds out who sent a request, from its cookie header and its
    /// authorization header.
    ///
    /// A valid session named in the cookie header identifies the caller. If
    /// there is none, the authorization header must carry a name and a
    /// password in the `Basic` form, and they identify the caller if they
    /// are right. A session named in the cookie header that expired before
    /// `current_time` is removed; nothing else changes.
    pub fn authenticate(
        &mut self,
        cookie_header: Option<&str>,
        auth_header: Option<&str>,
        current_time: i64,
    ) -> (r: Result<AuthContext, AppError>)
        requires
            old(self).wf(),
        ensures
            final(self).wf(),
            final(self).user_service == old(self).user_service,
            final(self).session_service.session_repo@ == (if names_expired(
                *old(self),
                cookie_session_id(cookie_header),
                current_time,
            ) {
                sessions_without(
                    old(self).session_service.session_repo@,
                    cookie_session_id(cookie_header).unwrap(),
                )
            } else {
                old(self).session_service.session_repo@
            }),
            match session_caller(*old(self), cookie_session_id(cookie_header), current_time) {
                Some(caller) => r matches Ok(context) && context.user_id == caller.0
                    && context.username@ == caller.1,
                None => basic_verdict(r, *old(self), auth_header),
            },
    {
        match cookie_header {
            Some(cookie) => {
                match extract_session_from_cookie(cookie) {
                    Some(session_id) => {
                        match self.verify_session(session_id.as_str(), current_time) {
                            Ok(user_id) => {
                                match self.get_username_by_id(user_id) {
                                    Ok(username) => {
                                        return Ok(AuthContext { user_id, username });
                                    },
                                    Err(_) => {},
                                }
                            },
                            Err(_) => {},
                        }
                    },
                    None => {},
                }
            },
            None => {},
        }
        let header: &str = match auth_header {
            Some(header) => header,
            None => {
                return Err(AppError::Authentication);
            },
        };
        let (username, password) = match parse_basic_auth(header) {
            Ok(pair) => pair,
            Err(e) => {
                return Err(e);
            },
        };
        match self.verify_credentials(username.as_str(), password.as_str()) {
            Ok(user_id) => Ok(AuthContext { user_id, username }),
            Err(e) => Err(e),
        }
    }
}

} // verus!
