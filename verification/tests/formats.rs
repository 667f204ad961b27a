use pod_synq::error::AppError;
use pod_synq::handlers::subscriptions::{
    accept_urls, parse_opml, parse_simple, parse_txt, render_simple, to_opml, to_txt, SimpleReply,
};

fn urls(list: &[&str]) -> Vec<String> {
    list.iter().map(|s| s.to_string()).collect()
}

#[test]
fn text_list_has_one_url_on_each_line() {
    assert_eq!(to_txt(&[]), "");
    assert_eq!(to_txt(&urls(&["http://a"])), "http://a");
    assert_eq!(to_txt(&urls(&["http://a", "http://b", ""])), "http://a\nhttp://b\n");
}

#[test]
fn opml_document_lists_each_feed() {
    let empty = "<?xml version=\"1.0\" encoding=\"UTF-8\"?>\n<opml version=\"2.0\">\n  <head>\n    <title>Podcast Subscriptions</title>\n  </head>\n  <body>\n  </body>\n</opml>";
    assert_eq!(to_opml(&[]), empty);
    let two = "<?xml version=\"1.0\" encoding=\"UTF-8\"?>\n<opml version=\"2.0\">\n  <head>\n    <title>Podcast Subscriptions</title>\n  </head>\n  <body>\n    <outline type=\"rss\" text=\"http://a/feed\" xmlUrl=\"http://a/feed\"/>\n    <outline type=\"rss\" text=\"http://b\" xmlUrl=\"http://b\"/>\n  </body>\n</opml>";
    assert_eq!(to_opml(&urls(&["http://a/feed", "http://b"])), two);
}

#[test]
fn text_list_is_read_line_by_line() {
    assert_eq!(parse_txt(""), Vec::<String>::new());
    assert_eq!(parse_txt("\n\n  \n"), Vec::<String>::new());
    assert_eq!(
        parse_txt("http://a\r\n  http://b  \n\n\thttp://c"),
        urls(&["http://a", "http://b", "http://c"])
    );
    assert_eq!(parse_txt("one two\n"), urls(&["one two"]));
    assert_eq!(parse_txt("\u{3000}x\u{a0}"), urls(&["x"]));
}

#[test]
fn text_list_is_read_as_lines_and_trim_read_it() {
    for body in [
        "", "\n", "a", "a\n", "a\nb", " a \r\n\r\n b\r\n", "\ta\u{2003}\n\u{85}\nb b\n\n", "\r", "x\ry",
    ] {
        let expected: Vec<String> = body
            .lines()
            .filter(|line| !line.trim().is_empty())
            .map(|line| line.trim().to_string())
            .collect();
        assert_eq!(parse_txt(body), expected, "for {:?}", body);
    }
}

#[test]
fn opml_document_is_read_line_by_line() {
    let body = "<opml>\n<outline text=\"A\" xmlUrl=\"http://a/feed\"/>\n<outline xmlUrl=\"http://b\" xmlUrl=\"http://ignored\"/>\r\n<outline text=\"no url\"/>\n<outline xmlUrl=\"unclosed\n xmlUrl=\"\" \n</opml>";
    assert_eq!(parse_opml(body), urls(&["http://a/feed", "http://b", ""]));
    assert_eq!(parse_opml(""), Vec::<String>::new());
    assert_eq!(parse_opml("xmlUrl=\""), Vec::<String>::new());
    assert_eq!(parse_opml("xxmlUrl=\"é\"x"), urls(&["é"]));
}

#[test]
fn what_was_written_as_opml_is_read_back() {
    let list = urls(&["http://a/feed", "https://b/?x=1&y=2", "http://c"]);
    assert_eq!(parse_opml(&to_opml(&list)), list);
    assert_eq!(parse_txt(&to_txt(&list)), list);
}

#[test]
fn json_list_is_read_by_the_json_reader() {
    assert_eq!(
        parse_simple("json", "[\"http://a\", \"http:\\/\\/b\\u00e9\"]").unwrap(),
        urls(&["http://a", "http://bé"])
    );
    assert_eq!(parse_simple("json", " [ ] ").unwrap(), Vec::<String>::new());
    assert!(matches!(parse_simple("json", "[1, 2]"), Err(AppError::Internal(_))));
    assert!(matches!(parse_simple("json", "not json"), Err(AppError::Internal(_))));
    assert!(matches!(parse_simple("json", "{\"a\": []}"), Err(AppError::Internal(_))));
}

#[test]
fn bodies_are_read_in_the_format_named() {
    assert_eq!(parse_simple("txt", "http://a\nhttp://b").unwrap(), urls(&["http://a", "http://b"]));
    assert_eq!(parse_simple("opml", "xmlUrl=\"http://a\"").unwrap(), urls(&["http://a"]));
    match parse_simple("xml", "") {
        Err(AppError::Internal(msg)) => assert_eq!(msg, "Invalid format: xml"),
        _ => panic!("expected an internal error"),
    }
    assert!(matches!(parse_simple("JSON", "[]"), Err(AppError::Internal(_))));
}

#[test]
fn lists_are_written_in_the_format_named() {
    let list = urls(&["http://a", "http://b"]);
    match render_simple("json", list.clone()).unwrap() {
        SimpleReply::Json(out) => assert_eq!(out, list),
        _ => panic!("expected the list"),
    }
    match render_simple("txt", list.clone()).unwrap() {
        SimpleReply::Body { content, content_type } => {
            assert_eq!(content, "http://a\nhttp://b");
            assert_eq!(content_type, "text/plain");
        }
        _ => panic!("expected a body"),
    }
    match render_simple("opml", list.clone()).unwrap() {
        SimpleReply::Body { content, content_type } => {
            assert_eq!(content, to_opml(&list));
            assert_eq!(content_type, "text/xml");
        }
        _ => panic!("expected a body"),
    }
    match render_simple("csv", list) {
        Err(AppError::Internal(msg)) => assert_eq!(msg, "Invalid format: csv"),
        _ => panic!("expected an internal error"),
    }
}

#[test]
fn accepted_urls_leave_out_what_is_rewritten() {
    let (kept, updates) = accept_urls(&urls(&[
        "http://a",
        "javascript:alert(1)",
        "https://b",
        "",
        "HTTP://upper",
        "http:/one-slash",
        "http://",
        "https://b",
        "http://a",
    ]));
    assert_eq!(kept, urls(&["http://a", "https://b", "http://"]));
    assert_eq!(
        updates,
        vec![
            ["javascript:alert(1)".to_string(), "".to_string()],
            ["HTTP://upper".to_string(), "".to_string()],
            ["http:/one-slash".to_string(), "".to_string()],
        ]
    );
}
