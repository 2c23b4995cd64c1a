use hemmer::transformers::outlook_tags::{parse_only_attr, process};

#[test]
fn test_basic_outlook() {
    let html = r##"<outlook>X</outlook>"##;
    let result = process(html).unwrap();
    assert_eq!(result, r##"<!--[if mso]>X<![endif]-->"##);
}

#[test]
fn test_not_outlook() {
    let html = r##"<not-outlook>X</not-outlook>"##;
    let result = process(html).unwrap();
    assert_eq!(result, r##"<!--[if !mso]><!-->X<!--<![endif]-->"##);
}

#[test]
fn test_outlook_with_only() {
    let html = r##"<outlook only="mso 9">X</outlook>"##;
    let result = process(html).unwrap();
    assert_eq!(result, r##"<!--[if mso 9]>X<![endif]-->"##);
}

#[test]
fn test_outlook_with_gte() {
    let html = r##"<outlook only="gte mso 9">X</outlook>"##;
    let result = process(html).unwrap();
    assert_eq!(result, r##"<!--[if gte mso 9]>X<![endif]-->"##);
}

#[test]
fn test_nested_content() {
    let html = r##"<outlook><table><tr><td>Hi</td></tr></table></outlook>"##;
    let result = process(html).unwrap();
    assert_eq!(result, r##"<!--[if mso]><table><tr><td>Hi</td></tr></table><![endif]-->"##);
}

#[test]
fn test_multiple_outlook_tags() {
    let html = r##"<outlook>A</outlook> middle <outlook>B</outlook>"##;
    let result = process(html).unwrap();
    assert_eq!(result, r##"<!--[if mso]>A<![endif]--> middle <!--[if mso]>B<![endif]-->"##);
}

#[test]
fn test_only_2003() {
    let html = r##"<outlook only="2003">X</outlook>"##;
    let result = process(html).unwrap();
    assert_eq!(result, r##"<!--[if mso 9]>X<![endif]-->"##);
}

#[test]
fn test_only_2007() {
    let html = r##"<outlook only="2007">X</outlook>"##;
    let result = process(html).unwrap();
    assert_eq!(result, r##"<!--[if mso 12]>X<![endif]-->"##);
}

#[test]
fn test_only_2010() {
    let html = r##"<outlook only="2010">X</outlook>"##;
    let result = process(html).unwrap();
    assert_eq!(result, r##"<!--[if mso 14]>X<![endif]-->"##);
}

#[test]
fn test_only_2013() {
    let html = r##"<outlook only="2013">X</outlook>"##;
    let result = process(html).unwrap();
    assert_eq!(result, r##"<!--[if mso 15]>X<![endif]-->"##);
}

#[test]
fn test_only_2016() {
    let html = r##"<outlook only="2016">X</outlook>"##;
    let result = process(html).unwrap();
    assert_eq!(result, r##"<!--[if mso 16]>X<![endif]-->"##);
}

#[test]
fn test_only_multiple_versions() {
    let html = r##"<outlook only="2013,2016">X</outlook>"##;
    let result = process(html).unwrap();
    assert_eq!(result, r##"<!--[if (mso 15)|(mso 16)]>X<![endif]-->"##);
}

#[test]
fn test_lt_attribute() {
    let html = r##"<outlook lt="2013">X</outlook>"##;
    let result = process(html).unwrap();
    assert_eq!(result, r##"<!--[if lt mso 15]>X<![endif]-->"##);
}

#[test]
fn test_lte_attribute() {
    let html = r##"<outlook lte="2010">X</outlook>"##;
    let result = process(html).unwrap();
    assert_eq!(result, r##"<!--[if lte mso 14]>X<![endif]-->"##);
}

#[test]
fn test_gt_attribute() {
    let html = r##"<outlook gt="2007">X</outlook>"##;
    let result = process(html).unwrap();
    assert_eq!(result, r##"<!--[if gt mso 12]>X<![endif]-->"##);
}

#[test]
fn test_gte_attribute() {
    let html = r##"<outlook gte="2013">X</outlook>"##;
    let result = process(html).unwrap();
    assert_eq!(result, r##"<!--[if gte mso 15]>X<![endif]-->"##);
}

#[test]
fn test_not_attribute() {
    let html = r##"<outlook not="2013">X</outlook>"##;
    let result = process(html).unwrap();
    assert_eq!(result, r##"<!--[if !mso 15]>X<![endif]-->"##);
}

#[test]
fn test_not_multiple() {
    let html = r##"<outlook not="2013,2016">X</outlook>"##;
    let result = process(html).unwrap();
    assert_eq!(result, r##"<!--[if !((mso 15)|(mso 16))]>X<![endif]-->"##);
}

#[test]
fn test_raw_mso_syntax_still_works() {
    let html = r##"<outlook only="mso 9">X</outlook>"##;
    let result = process(html).unwrap();
    assert_eq!(result, r##"<!--[if mso 9]>X<![endif]-->"##);
}

#[test]
fn test_raw_gte_mso_syntax_still_works() {
    let html = r##"<outlook only="gte mso 9">X</outlook>"##;
    let result = process(html).unwrap();
    assert_eq!(result, r##"<!--[if gte mso 9]>X<![endif]-->"##);
}

#[test]
fn test_no_outlook_tags() {
    let html = "<table><tr><td>Hi</td></tr></table>";
    let result = process(html).unwrap();
    assert_eq!(result, html);
}

#[test]
fn test_does_not_match_outlook_prefix() {
    let html = "<outlookcustom>X</outlookcustom>";
    let result = process(html).unwrap();
    assert_eq!(result, html);
}

#[test]
fn test_parse_only_attr() {
    assert_eq!(parse_only_attr(r#" only="mso 9""#), Some("mso 9".to_string()));
    assert_eq!(parse_only_attr(r#" only='gte mso 9'"#), Some("gte mso 9".to_string()));
    assert_eq!(parse_only_attr(""), None);
}

// ─── further cases ───

#[test]
fn unclosed_outlook_tag_is_left() {
    let html = "<outlook>X";
    assert_eq!(process(html).unwrap(), html);
}

#[test]
fn version_2019_is_mso_16_and_unknown_passes_through() {
    let html = r#"<outlook only="2019,2030">X</outlook>"#;
    assert_eq!(process(html).unwrap(), "<!--[if (mso 16)|(mso 2030)]>X<![endif]-->");
}

#[test]
fn comparison_attributes_in_documented_order() {
    let result = process(r#"<outlook lt="2013" lte="2010">x</outlook>"#).unwrap();
    assert!(result.contains("[if lt mso 15]"), "got {result}");
    let result = process(r#"<outlook gte="2016" gt="2010">x</outlook>"#).unwrap();
    assert!(result.contains("[if gt mso 14]"), "got {result}");
}
