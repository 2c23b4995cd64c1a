use hemmer::transformers::html_transforms::{expand_short_hex, process};

#[test]
fn test_expand_short_hex() {
    assert_eq!(expand_short_hex("#fff"), Some("#ffffff".to_string()));
    assert_eq!(expand_short_hex("#abc"), Some("#aabbcc".to_string()));
    assert_eq!(expand_short_hex("#FFFFFF"), None);
    assert_eq!(expand_short_hex("red"), None);
}

#[test]
fn test_default_table_attributes() {
    let html = "<table><tr><td>Hello</td></tr></table>";
    let result = process(html, true, false).unwrap();
    assert!(result.contains("cellpadding=\"0\""));
    assert!(result.contains("cellspacing=\"0\""));
    assert!(result.contains("role=\"none\""));
}

#[test]
fn test_img_alt() {
    let html = r#"<img src="logo.png">"#;
    let result = process(html, true, false).unwrap();
    assert!(result.contains("alt=\"\""));
}

#[test]
fn test_six_digit_hex() {
    let html = "<td bgcolor=\"#fff\">Hi</td>";
    let result = process(html, false, true).unwrap();
    assert!(result.contains("bgcolor=\"#ffffff\""));
}

// ─── further cases ───

#[test]
fn expand_short_hex_trims_and_rejects() {
    assert_eq!(expand_short_hex("  #1aF "), Some("#11aaFF".to_string()));
    assert_eq!(expand_short_hex("#ggg"), None);
    assert_eq!(expand_short_hex("#ab"), None);
    assert_eq!(expand_short_hex("fff"), None);
}

#[test]
fn existing_table_attributes_kept() {
    let html = r#"<table cellpadding="4" role="grid"></table>"#;
    let result = process(html, true, false).unwrap();
    assert!(result.contains("cellpadding=\"4\""));
    assert!(result.contains("role=\"grid\""));
    assert!(result.contains("cellspacing=\"0\""));
}

#[test]
fn color_attribute_expanded() {
    let result = process("<font color=\"#abc\">x</font>", false, true).unwrap();
    assert!(result.contains("color=\"#aabbcc\""));
}

#[test]
fn expanded_hex_is_not_expanded_again() {
    let once = expand_short_hex(" #1aF ").unwrap();
    assert_eq!(once, "#11aaFF");
    assert_eq!(expand_short_hex(&once), None);
    let html = "<td bgcolor=\"#abc\" color=\"#123\">x</td>";
    let first = process(html, false, true).unwrap();
    let second = process(&first, false, true).unwrap();
    assert_eq!(first, second);
}
