use pod_synq::error::AppError;
use pod_synq::handlers::auth::{login, logout};
use pod_synq::middleware::auth::{extract_session_from_cookie, parse_basic_auth};
use pod_synq::middleware::{AuthContext, AuthService};
use pod_synq::repository::{SessionRepository, UserRepository};
use pod_synq::services::session_service::SESSION_DURATION_SECS;
use pod_synq::services::{SessionService, UserService};

const SALT: &str = "c29tZXNhbHRzb21lc2FsdA";

fn service_with_alice() -> AuthService {
    let mut users = UserService::new(UserRepository::new());
    let hash = UserService::hash_password_with_salt("wonderland", SALT).unwrap();
    users.create_user("alice", &hash, false, 10).unwrap();
    AuthService::new(users, SessionService::new(SessionRepository::new()))
}

#[test]
fn session_id_is_found_among_cookies() {
    assert_eq!(
        extract_session_from_cookie("sessionid=abc123"),
        Some("abc123".to_string())
    );
    assert_eq!(
        extract_session_from_cookie("theme=dark;  sessionid=abc=123 ; other=1"),
        Some("abc=123".to_string())
    );
    assert_eq!(
        extract_session_from_cookie("sessionid=first; sessionid=second"),
        Some("first".to_string())
    );
    assert_eq!(extract_session_from_cookie("sessionid="), Some("".to_string()));
    assert_eq!(extract_session_from_cookie(""), None);
    assert_eq!(extract_session_from_cookie("sessionid"), None);
    assert_eq!(extract_session_from_cookie("session=abc; id=1"), None);
    assert_eq!(extract_session_from_cookie("sessionid =abc"), None);
    assert_eq!(extract_session_from_cookie("xsessionid=abc"), None);
    assert_eq!(extract_session_from_cookie(";;=;sessionid=x y ;"), Some("x y".to_string()));
}

#[test]
fn basic_header_is_decoded_and_split_at_the_first_colon() {
    // "alice:wonderland"
    let (name, password) = parse_basic_auth("Basic YWxpY2U6d29uZGVybGFuZA==").unwrap();
    assert_eq!(name, "alice");
    assert_eq!(password, "wonderland");
    // "a:b:c"
    let (name, password) = parse_basic_auth("Basic YTpiOmM=").unwrap();
    assert_eq!((name.as_str(), password.as_str()), ("a", "b:c"));
    // ":"
    let (name, password) = parse_basic_auth("Basic Og==").unwrap();
    assert_eq!((name.as_str(), password.as_str()), ("", ""));
}

#[test]
fn malformed_basic_headers_are_authentication_failures() {
    for header in [
        "",
        "Bearer YWxpY2U6d29uZGVybGFuZA==",
        "basic YWxpY2U6d29uZGVybGFuZA==",
        "Basic",
        "Basic ",
        "Basic !!!",
        "Basic YWxpY2U6d29uZGVybGFuZA",
        // "alice" without a colon
        "Basic YWxpY2U=",
        // the bytes ff fe, which are not UTF-8
        "Basic //4=",
    ] {
        assert!(
            matches!(parse_basic_auth(header), Err(AppError::Authentication)),
            "for {:?}",
            header
        );
    }
}

#[test]
fn hashing_with_a_salt_gives_the_known_hash_and_it_verifies() {
    let hash = UserService::hash_password_with_salt("wonderland", SALT).unwrap();
    assert!(hash.starts_with("$argon2id$v=19$m=19456,t=2,p=1$c29tZXNhbHRzb21lc2FsdA$"));
    assert_eq!(hash, UserService::hash_password_with_salt("wonderland", SALT).unwrap());
    assert_ne!(hash, UserService::hash_password_with_salt("Wonderland", SALT).unwrap());
    let users = UserService::new(UserRepository::new());
    assert!(users.verify_password(&hash, "wonderland").is_ok());
    assert!(matches!(
        users.verify_password(&hash, "wrong"),
        Err(AppError::Authentication)
    ));
    match users.verify_password("not a hash", "wonderland") {
        Err(AppError::Internal(msg)) => assert_eq!(msg, "Invalid password hash format"),
        _ => panic!("expected an internal error"),
    }
    match UserService::hash_password_with_salt("wonderland", "!") {
        Err(AppError::Internal(msg)) => assert!(msg.starts_with("Failed to hash password: ")),
        _ => panic!("expected an internal error"),
    }
}

#[test]
fn hashing_with_a_random_salt_verifies_and_differs_each_time() {
    let first = UserService::hash_password("secret").unwrap();
    let second = UserService::hash_password("secret").unwrap();
    assert_ne!(first, second);
    let users = UserService::new(UserRepository::new());
    assert!(users.verify_password(&first, "secret").is_ok());
    assert!(users.verify_password(&second, "secret").is_ok());
    assert!(users.verify_password(&second, "Secret").is_err());
}

#[test]
fn credentials_are_checked_against_the_stored_hash() {
    let service = service_with_alice();
    assert_eq!(service.verify_credentials("alice", "wonderland").unwrap(), 1);
    assert!(matches!(
        service.verify_credentials("alice", "looking-glass"),
        Err(AppError::Authentication)
    ));
    assert!(matches!(
        service.verify_credentials("bob", "wonderland"),
        Err(AppError::Authentication)
    ));
    assert_eq!(service.get_username_by_id(1).unwrap(), "alice");
    assert!(matches!(service.get_username_by_id(2), Err(AppError::Authentication)));
}

#[test]
fn first_account_is_made_an_administrator_once() {
    let mut users = UserService::new(UserRepository::new());
    assert!(users.is_empty());
    assert_eq!(users.initialize_admin_if_needed("root", "pw", 5).unwrap(), true);
    assert!(!users.is_empty());
    assert_eq!(users.initialize_admin_if_needed("other", "pw", 6).unwrap(), false);
    let root = users.find_by_id(1).unwrap();
    assert_eq!(root.username, "root");
    assert!(root.is_admin);
    assert_eq!(root.created_at, 5);
    assert_eq!(users.verify_credentials("root", "pw").unwrap(), 1);
    assert!(users.find_by_id(2).is_none());
    assert!(matches!(
        users.create_user("root", "x", false, 7),
        Err(AppError::Internal(_))
    ));
}

#[test]
fn sessions_expire_and_are_removed_when_found_expired() {
    let mut sessions = SessionService::new(SessionRepository::new());
    let id = sessions.create_session(7, 1000).unwrap();
    assert_eq!(id.len(), 36);
    let other = sessions.create_session(8, 2000).unwrap();
    assert_ne!(id, other);
    let stored = sessions.session_repo.find_by_id(&id).unwrap();
    assert_eq!(stored.user_id, 7);
    assert_eq!(stored.created_at, 1000);
    assert_eq!(stored.expires_at, 1000 + 30 * 24 * 60 * 60);
    assert_eq!(SESSION_DURATION_SECS, 2592000);

    assert_eq!(sessions.validate_session(&id, 1000 + 2592000).unwrap(), 7);
    assert!(matches!(
        sessions.validate_session("unknown", 1000),
        Err(AppError::Authentication)
    ));
    assert!(matches!(
        sessions.validate_session(&id, 1000 + 2592001),
        Err(AppError::Authentication)
    ));
    assert!(sessions.session_repo.find_by_id(&id).is_none());
    assert_eq!(sessions.validate_session(&other, 3000).unwrap(), 8);
}

#[test]
fn expired_sessions_are_cleaned_up() {
    let mut sessions = SessionService::new(SessionRepository::new());
    sessions.create_session_with_id("a".to_string(), 1, 0).unwrap();
    sessions.create_session_with_id("b".to_string(), 1, 100).unwrap();
    sessions.create_session_with_id("c".to_string(), 2, 200).unwrap();
    assert!(matches!(
        sessions.create_session_with_id("b".to_string(), 3, 300),
        Err(AppError::Internal(_))
    ));
    assert_eq!(sessions.cleanup_expired_sessions(2592000 + 100), 1);
    assert_eq!(sessions.cleanup_expired_sessions(2592000 + 100), 0);
    assert!(sessions.session_repo.find_by_id("a").is_none());
    assert!(sessions.session_repo.find_by_id("b").is_some());
    sessions.delete_session("b");
    sessions.delete_session("nobody");
    assert!(sessions.session_repo.find_by_id("b").is_none());
    assert_eq!(sessions.cleanup_expired_sessions(i64::MAX), 1);
}

#[test]
fn caller_is_identified_by_session_or_by_password() {
    let mut service = service_with_alice();
    let context = AuthContext { user_id: 1, username: "alice".to_string() };
    let cookie = login(&context, &mut service.session_service, 1000).unwrap();
    assert!(cookie.starts_with("sessionid="));
    assert!(cookie.ends_with("; Max-Age=2592000; Path=/; HttpOnly; SameSite=Lax"));
    let id = extract_session_from_cookie(&cookie).unwrap();
    assert_eq!(id.len(), 36);

    // By session.
    let caller = service.authenticate(Some(&cookie), None, 2000).unwrap();
    assert_eq!((caller.user_id, caller.username.as_str()), (1, "alice"));

    // By name and password.
    let header = "Basic YWxpY2U6d29uZGVybGFuZA==";
    let caller = service.authenticate(None, Some(header), 2000).unwrap();
    assert_eq!((caller.user_id, caller.username.as_str()), (1, "alice"));

    // A bad cookie falls back to the password.
    let caller = service
        .authenticate(Some("sessionid=forged"), Some(header), 2000)
        .unwrap();
    assert_eq!(caller.user_id, 1);

    // Nothing to go by.
    assert!(matches!(
        service.authenticate(None, None, 2000),
        Err(AppError::Authentication)
    ));
    assert!(matches!(
        service.authenticate(Some("sessionid=forged"), None, 2000),
        Err(AppError::Authentication)
    ));
    // "alice:wrong"
    assert!(matches!(
        service.authenticate(None, Some("Basic YWxpY2U6d3Jvbmc="), 2000),
        Err(AppError::Authentication)
    ));

    // An expired session is removed, and the password still works.
    let late = 1000 + 2592000 + 1;
    let caller = service.authenticate(Some(&cookie), Some(header), late).unwrap();
    assert_eq!(caller.user_id, 1);
    assert!(service.session_service.session_repo.find_by_id(&id).is_none());
}

#[test]
fn logging_out_closes_the_session_named_in_the_cookie() {
    let mut sessions = SessionService::new(SessionRepository::new());
    sessions.create_session_with_id("abc".to_string(), 1, 0).unwrap();
    sessions.create_session_with_id("def".to_string(), 1, 0).unwrap();
    let cookie = logout(Some("x=1; sessionid=abc"), &mut sessions);
    assert_eq!(cookie, "sessionid=; Max-Age=0; Path=/; HttpOnly; SameSite=Lax");
    assert!(sessions.session_repo.find_by_id("abc").is_none());
    assert!(sessions.session_repo.find_by_id("def").is_some());
    logout(None, &mut sessions);
    logout(Some("no session here"), &mut sessions);
    assert!(sessions.session_repo.find_by_id("def").is_some());
}
