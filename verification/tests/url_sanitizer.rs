use pod_synq::utils::url_sanitizer::{sanitize_url, sanitize_urls};

#[test]
fn test_sanitize_url_valid_http() {
    assert_eq!(
        sanitize_url("http://example.com/feed.rss"),
        "http://example.com/feed.rss"
    );
}

#[test]
fn test_sanitize_url_valid_https() {
    assert_eq!(
        sanitize_url("https://example.com/feed.rss"),
        "https://example.com/feed.rss"
    );
}

#[test]
fn test_sanitize_url_invalid_ftp() {
    assert_eq!(sanitize_url("ftp://example.com/file"), "");
}

#[test]
fn test_sanitize_url_invalid_javascript() {
    assert_eq!(sanitize_url("javascript:alert(1)"), "");
}

#[test]
fn test_sanitize_url_empty() {
    assert_eq!(sanitize_url(""), "");
}

#[test]
fn test_sanitize_urls_mixed() {
    let urls = vec![
        "http://example.com/1".to_string(),
        "ftp://bad.com".to_string(),
        "https://example.com/2".to_string(),
    ];

    let (sanitized, updates) = sanitize_urls(&urls);

    assert_eq!(sanitized.len(), 3);
    assert_eq!(sanitized[0], "http://example.com/1");
    assert_eq!(sanitized[1], "");
    assert_eq!(sanitized[2], "https://example.com/2");

    assert_eq!(updates.len(), 1);
    assert_eq!(updates[0], ["ftp://bad.com".to_string(), "".to_string()]);
}
