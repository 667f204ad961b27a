pub mod url_sanitizer;

pub use url_sanitizer::{sanitize_url, sanitize_urls};
