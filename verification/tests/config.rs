use pod_synq::config::{parse_port, Config};
use pod_synq::error::AppError;

fn config(port: u16, db_path: &str) -> Config {
    Config {
        port,
        db_path: db_path.to_string(),
        admin_username: None,
        admin_password: None,
        log_level: "info".to_string(),
    }
}

#[test]
fn valid_config_is_accepted() {
    assert_eq!(config(8080, "./pod-synq.db").validate(), Ok(()));
    assert_eq!(config(1, "x").validate(), Ok(()));
    assert_eq!(config(65535, "x").validate(), Ok(()));
}

#[test]
fn port_zero_is_refused_first() {
    assert_eq!(
        config(0, "./pod-synq.db").validate(),
        Err("Port must be between 1 and 65535".to_string())
    );
    assert_eq!(
        config(0, "").validate(),
        Err("Port must be between 1 and 65535".to_string())
    );
}

#[test]
fn empty_database_path_is_refused() {
    assert_eq!(
        config(8080, "").validate(),
        Err("Database path cannot be empty".to_string())
    );
}

#[test]
fn ports_are_read_as_the_standard_library_reads_them() {
    for text in [
        "0", "1", "80", "8080", "65535", "65536", "70000", "99999999999999999999", "+80", "+",
        "", "-1", " 80", "80 ", "0080", "00000000000000065535", "8o80", "+0", "++1", "٣",
    ] {
        assert_eq!(parse_port(text), text.parse::<u16>().ok(), "for {:?}", text);
    }
    assert_eq!(parse_port("8080"), Some(8080));
    assert_eq!(parse_port("65536"), None);
}

#[test]
fn settings_fall_back_to_their_defaults() {
    let c = Config::from_vars(None, None, None, None, None);
    assert_eq!(c.port, 8080);
    assert_eq!(c.db_path, "./pod-synq.db");
    assert_eq!(c.admin_username, None);
    assert_eq!(c.admin_password, None);
    assert_eq!(c.log_level, "info");

    let c = Config::from_vars(
        Some("not a port"),
        Some("/data/db".to_string()),
        Some("root".to_string()),
        Some("secret".to_string()),
        Some("debug".to_string()),
    );
    assert_eq!(c.port, 8080);
    assert_eq!(c.db_path, "/data/db");
    assert_eq!(c.admin_username, Some("root".to_string()));
    assert_eq!(c.admin_password, Some("secret".to_string()));
    assert_eq!(c.log_level, "debug");

    let c = Config::from_vars(Some("9000"), None, None, None, None);
    assert_eq!(c.port, 9000);
}

#[test]
fn errors_are_shown_by_kind() {
    let cases = [
        (AppError::Database("disk full".to_string()), 500, "Database error", "Database error: disk full"),
        (AppError::Authentication, 401, "Authentication failed", "Authentication failed"),
        (AppError::Authorization, 403, "Authorization failed", "Authorization failed"),
        (AppError::BadRequest("no".to_string()), 400, "no", "Bad request: no"),
        (AppError::Internal("oops".to_string()), 500, "Internal server error", "Internal server error: oops"),
    ];
    for (error, status, message, description) in cases {
        assert_eq!(error.status_code(), status);
        assert_eq!(error.client_message(), message);
        assert_eq!(error.to_string(), description);
    }
}
