use hemmer::transformers::base_url::{is_relative, process};

#[test]
fn test_resolve_relative_paths() {
    let html = r#"<img src="/images/logo.png"><a href="/about">About</a>"#;
    let result = process(html, "https://example.com").unwrap();
    assert!(result.contains("src=\"https://example.com/images/logo.png\""));
    assert!(result.contains("href=\"https://example.com/about\""));
}

#[test]
fn test_leave_absolute_urls() {
    let html = r#"<a href="https://other.com/page">Link</a>"#;
    let result = process(html, "https://example.com").unwrap();
    assert!(result.contains("href=\"https://other.com/page\""));
}

#[test]
fn test_leave_mailto() {
    let html = r#"<a href="mailto:test@example.com">Email</a>"#;
    let result = process(html, "https://example.com").unwrap();
    assert!(result.contains("href=\"mailto:test@example.com\""));
}

#[test]
fn test_resolve_no_leading_slash() {
    let html = r#"<img src="images/logo.png">"#;
    let result = process(html, "https://example.com").unwrap();
    assert!(result.contains("src=\"https://example.com/images/logo.png\""));
}

// ─── further cases ───

#[test]
fn is_relative_cases() {
    assert!(is_relative("images/a.png"));
    assert!(is_relative(" /a "));
    assert!(!is_relative(""));
    assert!(!is_relative("   "));
    assert!(!is_relative("https://x.com"));
    assert!(!is_relative("//cdn.x.com/a.png"));
    assert!(!is_relative("#top"));
    assert!(!is_relative("mailto:a@b.c"));
    assert!(!is_relative("tel:123"));
    assert!(!is_relative("data:image/png;base64,AAA"));
    assert!(!is_relative("{{ url }}"));
}

#[test]
fn trailing_slashes_of_base_are_dropped() {
    let result = process(r#"<img src="a.png">"#, "https://example.com///").unwrap();
    assert!(result.contains("src=\"https://example.com/a.png\""));
}

#[test]
fn srcset_candidates_are_resolved() {
    let html = r#"<img srcset="a.png 1x, /b.png 2x, https://c.com/c.png 3x">"#;
    let result = process(html, "https://example.com").unwrap();
    assert!(result.contains(
        "srcset=\"https://example.com/a.png 1x, https://example.com/b.png 2x, https://c.com/c.png 3x\""
    ));
}

#[test]
fn css_urls_are_resolved() {
    let html = r#"<html><head><style>.a { background: url('bg.png'); }</style></head><body><div style="background-image: url(/x.png)">x</div></body></html>"#;
    let result = process(html, "https://example.com").unwrap();
    assert!(result.contains("url('https://example.com/bg.png')"));
    assert!(result.contains("url(https://example.com/x.png)"));
}

#[test]
fn other_tags_are_left_alone() {
    let html = r#"<div src="a.png">x</div>"#;
    let result = process(html, "https://example.com").unwrap();
    assert_eq!(result, html);
}

#[test]
fn urls_with_a_protocol_are_not_relative() {
    assert!(!is_relative("javascript:void(0)"));
    assert!(!is_relative("sms:+123"));
    assert!(!is_relative("mailto:a@b.c"));
    assert!(!is_relative("https://x.com/a"));
    assert!(!is_relative("#top"));
    assert!(is_relative("images/a.png"));
    assert!(is_relative("./a:b.png"));
}
