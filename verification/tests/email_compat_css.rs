use hemmer::transformers::email_compat_css::{convert_rem_to_px, convert_style, process};

#[test]
fn test_rem_to_px() {
    assert_eq!(convert_rem_to_px("1rem"), "16px");
    assert_eq!(convert_rem_to_px("1.5rem"), "24px");
    assert_eq!(convert_rem_to_px("0.75rem"), "12px");
    assert_eq!(convert_rem_to_px("0.875rem"), "14px");
    assert_eq!(convert_rem_to_px("2rem"), "32px");
}

#[test]
fn test_rem_in_multi_value() {
    assert_eq!(convert_rem_to_px("1.5rem 2rem"), "24px 32px");
}

#[test]
fn test_px_unchanged() {
    assert_eq!(convert_rem_to_px("16px"), "16px");
    assert_eq!(convert_rem_to_px("100%"), "100%");
}

#[test]
fn test_logical_to_physical() {
    assert_eq!(
        convert_style("padding-inline: 1rem"),
        "padding-left: 16px; padding-right: 16px;"
    );
    assert_eq!(
        convert_style("padding-block: 0.75rem"),
        "padding-top: 12px; padding-bottom: 12px;"
    );
    assert_eq!(
        convert_style("margin-inline: 2rem"),
        "margin-left: 32px; margin-right: 32px;"
    );
}

#[test]
fn test_mixed_properties() {
    assert_eq!(
        convert_style("padding-inline: 1rem; color: red; margin-block: 0.5rem"),
        "padding-left: 16px; padding-right: 16px; color: red; margin-top: 8px; margin-bottom: 8px;"
    );
}

#[test]
fn test_gap_removed() {
    assert_eq!(convert_style("gap: 1rem"), "");
    assert_eq!(convert_style("gap: 1rem; color: red"), "color: red;");
}

#[test]
fn test_size_properties() {
    assert_eq!(convert_style("inline-size: 100%"), "width: 100%;");
    assert_eq!(convert_style("block-size: 2rem"), "height: 32px;");
}

#[test]
fn test_html_transform() {
    let html = r#"<div style="padding-inline: 1.5rem; font-size: 0.875rem;">Hi</div>"#;
    let result = process(html).unwrap();
    assert!(result.contains("padding-left: 24px"));
    assert!(result.contains("padding-right: 24px"));
    assert!(result.contains("font-size: 14px"));
    assert!(!result.contains("rem"));
}

// ─── further cases ───

#[test]
fn rem_fractions_and_signs() {
    assert_eq!(convert_rem_to_px("0.1rem"), "1.6px");
    assert_eq!(convert_rem_to_px("-2rem"), "-32px");
    assert_eq!(convert_rem_to_px(".5rem"), "8px");
    assert_eq!(convert_rem_to_px("calc(1rem + 2px)"), "calc(16px + 2px)");
}

#[test]
fn rem_times_sixteen_law_on_values() {
    assert_eq!(convert_rem_to_px("3.125rem"), "50px");
    assert_eq!(convert_rem_to_px("0.0625rem"), "1px");
}

#[test]
fn non_ascii_text_is_copied() {
    assert_eq!(convert_rem_to_px("café 1rem"), "café 16px");
    assert_eq!(convert_rem_to_px("\"Ünïcødé\""), "\"Ünïcødé\"");
}
