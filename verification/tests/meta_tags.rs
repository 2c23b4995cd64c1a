use hemmer::transformers::meta_tags::process;

#[test]
fn test_inject_doctype() {
    let html = "<html><head></head><body></body></html>";
    let result = process(html).unwrap();
    assert!(result.starts_with("<!DOCTYPE"));
}

#[test]
fn test_keep_existing_doctype() {
    let html = "<!DOCTYPE html><html><head></head><body></body></html>";
    let result = process(html).unwrap();
    assert_eq!(result.matches("DOCTYPE").count(), 1);
}

#[test]
fn test_inject_charset() {
    let html = "<html><head></head><body></body></html>";
    let result = process(html).unwrap();
    assert!(result.contains("charset=UTF-8"));
}

#[test]
fn test_inject_viewport() {
    let html = "<html><head></head><body></body></html>";
    let result = process(html).unwrap();
    assert!(result.contains("name=\"viewport\""));
}

#[test]
fn test_keep_existing_charset() {
    let html = r#"<html><head><meta charset="ISO-8859-1"></head><body></body></html>"#;
    let result = process(html).unwrap();
    assert!(result.contains("ISO-8859-1"));
    assert!(!result.contains("UTF-8"));
}

#[test]
fn test_inject_format_detection() {
    let html = "<html><head></head><body></body></html>";
    let result = process(html).unwrap();
    assert!(result.contains("format-detection"));
}

// ─── further cases ───

#[test]
fn lowercase_doctype_after_space_is_recognized() {
    let html = "  <!doctype html><html><head></head></html>";
    let result = process(html).unwrap();
    assert!(!result.contains("DOCTYPE"));
}

#[test]
fn tags_go_at_the_start_of_head() {
    let html = "<!DOCTYPE html><html><head><title>t</title></head></html>";
    let result = process(html).unwrap();
    assert!(result.contains("<head><meta http-equiv=\"Content-Type\""));
    assert!(result.contains("email=no, url=no\"><title>"));
}

#[test]
fn nothing_missing_means_no_rewrite() {
    let html = "<!DOCTYPE html><head><meta charset=\"utf-8\"><meta name='viewport'><meta http-equiv=\"X-UA-Compatible\"><meta name=\"format-detection\"></head>";
    let result = process(html).unwrap();
    assert_eq!(result, html);
}
