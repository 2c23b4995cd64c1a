use hemmer::transformers::attribute_to_style::{merge_styles, normalize_size, process};

#[test]
fn test_bgcolor_to_background_color() {
    let html = r##"<td bgcolor="#fff">Hi</td>"##;
    let result = process(html, &["bgcolor"]).unwrap();
    assert!(result.contains("style=\"background-color: #fff\""));
}

#[test]
fn test_background_to_image() {
    let html = r#"<td background="bg.png">Hi</td>"#;
    let result = process(html, &["background"]).unwrap();
    assert!(result.contains("background-image: url('bg.png')"));
}

#[test]
fn test_width_numeric_gets_px() {
    let html = r#"<table width="600"><tr></tr></table>"#;
    let result = process(html, &["width"]).unwrap();
    assert!(result.contains("style=\"width: 600px\""));
}

#[test]
fn test_width_percent_unchanged() {
    let html = r#"<table width="100%"><tr></tr></table>"#;
    let result = process(html, &["width"]).unwrap();
    assert!(result.contains("width: 100%"));
    assert!(!result.contains("%px"));
}

#[test]
fn test_align_center_on_table_uses_margin() {
    let html = r#"<table align="center"><tr></tr></table>"#;
    let result = process(html, &["align"]).unwrap();
    assert!(result.contains("margin-left: auto"));
    assert!(result.contains("margin-right: auto"));
}

#[test]
fn test_align_on_td_uses_text_align() {
    let html = r#"<td align="center">Hi</td>"#;
    let result = process(html, &["align"]).unwrap();
    assert!(result.contains("text-align: center"));
}

#[test]
fn test_valign_to_vertical_align() {
    let html = r#"<td valign="top">Hi</td>"#;
    let result = process(html, &["valign"]).unwrap();
    assert!(result.contains("vertical-align: top"));
}

#[test]
fn test_existing_style_preserved() {
    let html = r##"<td bgcolor="#fff" style="color: red">Hi</td>"##;
    let result = process(html, &["bgcolor"]).unwrap();
    assert!(result.contains("color: red"));
    assert!(result.contains("background-color: #fff"));
}

#[test]
fn test_existing_property_wins() {
    let html = r##"<td bgcolor="#fff" style="background-color: red">Hi</td>"##;
    let result = process(html, &["bgcolor"]).unwrap();
    assert!(result.contains("background-color: red"));
    assert!(!result.contains("background-color: #fff"));
}

#[test]
fn test_no_attributes_unchanged() {
    let html = r#"<td>Hi</td>"#;
    let result = process(html, &["bgcolor"]).unwrap();
    assert_eq!(result, html);
}

#[test]
fn test_empty_attributes_list() {
    let html = r##"<td bgcolor="#fff">Hi</td>"##;
    let result = process(html, &[]).unwrap();
    assert_eq!(result, html);
}

#[test]
fn test_multiple_attributes() {
    let html = r##"<td bgcolor="#fff" width="200" valign="top">Hi</td>"##;
    let result = process(html, &["bgcolor", "width", "valign"]).unwrap();
    assert!(result.contains("background-color: #fff"));
    assert!(result.contains("width: 200px"));
    assert!(result.contains("vertical-align: top"));
}

// ─── further cases ───

fn chars(s: &str) -> Vec<char> {
    s.chars().collect()
}

fn text(v: Vec<char>) -> String {
    v.into_iter().collect()
}

#[test]
fn normalize_size_cases() {
    assert_eq!(text(normalize_size(&chars(" 600 "))), "600px");
    assert_eq!(text(normalize_size(&chars("12.5"))), "12.5px");
    assert_eq!(text(normalize_size(&chars("50%"))), "50%");
    assert_eq!(text(normalize_size(&chars("auto"))), "auto");
    assert_eq!(text(normalize_size(&chars(""))), "");
}

#[test]
fn merge_styles_keeps_existing_and_appends_new() {
    let new_decls = vec![
        ("color".to_string(), "blue".to_string()),
        ("width".to_string(), "10px".to_string()),
    ];
    assert_eq!(merge_styles(" COLOR: red ;; ", &new_decls), "COLOR: red; width: 10px");
    assert_eq!(merge_styles("", &new_decls), "color: blue; width: 10px");
}

#[test]
fn align_non_center_on_table_floats() {
    let result = process(r#"<table align="right"></table>"#, &["align"]).unwrap();
    assert!(result.contains("float: right"));
}

#[test]
fn blank_attribute_is_ignored() {
    let html = r#"<td bgcolor="  ">Hi</td>"#;
    let result = process(html, &["bgcolor"]).unwrap();
    assert_eq!(result, html);
}
