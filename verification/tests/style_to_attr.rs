use hemmer::transformers::style_to_attr::{extract_css_value, process, strip_px_unit};

#[test]
fn test_extract_css_value() {
    let style = "width: 600px; color: red; padding: 10px";
    assert_eq!(extract_css_value(style, "width").as_deref(), Some("600px"));
    assert_eq!(extract_css_value(style, "color").as_deref(), Some("red"));
    assert_eq!(extract_css_value(style, "missing"), None);
}

#[test]
fn test_strip_px_unit() {
    assert_eq!(strip_px_unit("600px"), "600");
    assert_eq!(strip_px_unit("100%"), "100%");
    assert_eq!(strip_px_unit("auto"), "");
    assert_eq!(strip_px_unit("12.5px"), "12.5");
}

#[test]
fn test_table_width() {
    let html = r#"<table style="width: 600px;"><tr><td>Hi</td></tr></table>"#;
    let result = process(html).unwrap();
    assert!(result.contains("width=\"600\""));
}

#[test]
fn test_bgcolor() {
    let html = r#"<td style="background-color: #ff0000;">Hi</td>"#;
    let result = process(html).unwrap();
    assert!(result.contains("bgcolor=\"#ff0000\""));
}

#[test]
fn test_existing_attr_preserved() {
    let html = r#"<table width="500" style="width: 600px;"><tr><td>Hi</td></tr></table>"#;
    let result = process(html).unwrap();
    assert!(result.contains("width=\"500\""));
    assert!(!result.contains("width=\"600\""));
}

#[test]
fn test_align() {
    let html = r#"<td style="text-align: center;">Hi</td>"#;
    let result = process(html).unwrap();
    assert!(result.contains("align=\"center\""));
}

#[test]
fn test_skip_auto_value() {
    let html = r#"<table style="width: auto;"><tr><td>Hi</td></tr></table>"#;
    let result = process(html).unwrap();
    assert!(!result.contains("width=\"auto\""));
}

// ─── further cases ───

#[test]
fn strip_px_unit_more() {
    assert_eq!(strip_px_unit(" 12 px "), "12");
    assert_eq!(strip_px_unit(""), "");
    assert_eq!(strip_px_unit("7"), "7");
}

#[test]
fn first_declaration_wins_and_other_tags_ignored() {
    assert_eq!(extract_css_value("width:1px;width:2px", "width").as_deref(), Some("1px"));
    let html = r#"<span style="width: 10px">x</span>"#;
    assert_eq!(process(html).unwrap(), html);
}
