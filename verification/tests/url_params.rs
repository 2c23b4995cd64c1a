use hemmer::transformers::url_params::{is_trackable, process, query_string};

#[test]
fn test_append_utm_params() {
    let html = r#"<a href="https://example.com/page">Link</a>"#;
    let params = vec![
        ("utm_source".into(), "email".into()),
        ("utm_medium".into(), "newsletter".into()),
    ];
    let result = process(html, &params).unwrap();
    assert!(result.contains("href=\"https://example.com/page?utm_source=email&utm_medium=newsletter\""));
}

#[test]
fn test_existing_query_string() {
    let html = r#"<a href="https://example.com?foo=bar">Link</a>"#;
    let params = vec![("utm_source".into(), "email".into())];
    let result = process(html, &params).unwrap();
    assert!(result.contains("?foo=bar&utm_source=email"));
}

#[test]
fn test_skip_mailto() {
    let html = r#"<a href="mailto:test@example.com">Email</a>"#;
    let params = vec![("utm_source".into(), "email".into())];
    let result = process(html, &params).unwrap();
    assert!(result.contains("href=\"mailto:test@example.com\""));
}

#[test]
fn test_skip_relative() {
    let html = r#"<a href="/page">Link</a>"#;
    let params = vec![("utm_source".into(), "email".into())];
    let result = process(html, &params).unwrap();
    assert!(result.contains("href=\"/page\""));
}

// ─── further cases ───

#[test]
fn trackable_and_query() {
    assert!(is_trackable(" http://x.com"));
    assert!(is_trackable("https://x.com"));
    assert!(!is_trackable("ftp://x.com"));
    assert!(!is_trackable("HTTP://x.com"));
    let params = vec![("a".to_string(), "1".to_string()), ("b".to_string(), "".to_string())];
    assert_eq!(query_string(&params), "a=1&b=");
}

#[test]
fn no_params_leaves_document() {
    let html = r#"<a href="https://x.com">x</a>"#;
    assert_eq!(process(html, &[]).unwrap(), html);
}

#[test]
fn only_links_get_params() {
    let html = r#"<link href="https://x.com/a.css">"#;
    let params = vec![("a".to_string(), "1".to_string())];
    assert_eq!(process(html, &params).unwrap(), html);
}
