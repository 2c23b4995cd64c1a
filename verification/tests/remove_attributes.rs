use hemmer::transformers::remove_attributes::{default_rules, process, RemoveRule};

#[test]
fn test_default_removes_empty_style_class() {
    let html = r#"<div style="" class="">Hi</div>"#;
    let result = process(html, &default_rules()).unwrap();
    assert!(!result.contains("style="));
    assert!(!result.contains("class="));
}

#[test]
fn test_default_keeps_non_empty_style() {
    let html = r#"<div style="color: red">Hi</div>"#;
    let result = process(html, &default_rules()).unwrap();
    assert!(result.contains("style=\"color: red\""));
}

#[test]
fn test_always_removes_attribute() {
    let html = r#"<div data-temp="anything">Hi</div>"#;
    let rules = vec![RemoveRule::always("data-temp")];
    let result = process(html, &rules).unwrap();
    assert!(!result.contains("data-temp"));
}

#[test]
fn test_exact_value_match() {
    let html = r#"<a role="none">Hi</a><a role="button">Hi</a>"#;
    let rules = vec![RemoveRule::exact("role", "none")];
    let result = process(html, &rules).unwrap();
    assert!(!result.contains("role=\"none\""));
    assert!(result.contains("role=\"button\""));
}

#[test]
fn test_exact_value_mismatch_keeps() {
    let html = r#"<a role="button">Hi</a>"#;
    let rules = vec![RemoveRule::exact("role", "none")];
    let result = process(html, &rules).unwrap();
    assert!(result.contains("role=\"button\""));
}

#[test]
fn test_regex_match() {
    let html = r#"<div data-x="temp_123">Hi</div><div data-x="keep">Hi</div>"#;
    let rules = vec![RemoveRule::regex("data-x", "^temp_").unwrap()];
    let result = process(html, &rules).unwrap();
    assert!(!result.contains("temp_123"));
    assert!(result.contains("data-x=\"keep\""));
}

#[test]
fn test_regex_invalid_pattern_errors() {
    let result = RemoveRule::regex("data-x", "[invalid");
    assert!(result.is_err());
}

#[test]
fn test_empty_rules_unchanged() {
    let html = r#"<div style="" class="x">Hi</div>"#;
    let result = process(html, &[]).unwrap();
    assert_eq!(result, html);
}

#[test]
fn test_multiple_rules() {
    let html = r#"<div style="" class="" data-temp="x">Hi</div>"#;
    let mut rules = default_rules();
    rules.push(RemoveRule::always("data-temp"));
    let result = process(html, &rules).unwrap();
    assert!(!result.contains("style="));
    assert!(!result.contains("class="));
    assert!(!result.contains("data-temp"));
}

#[test]
fn test_empty_rule_keeps_whitespace_value() {
    let html = r#"<div style="   ">Hi</div>"#;
    let result = process(html, &default_rules()).unwrap();
    assert!(!result.contains("style="));
}

// ─── further cases ───

#[test]
fn invalid_regex_message() {
    match RemoveRule::regex("data-x", "(") {
        Err(e) => assert!(e.message().starts_with("HTML rewriting failed: invalid regex: ")),
        Ok(_) => panic!("expected an error"),
    }
}

#[test]
fn rule_matching() {
    assert!(RemoveRule::empty("x").matches(" \t"));
    assert!(!RemoveRule::empty("x").matches(" a "));
    assert!(RemoveRule::always("x").matches("anything"));
    assert!(RemoveRule::exact("x", "a").matches("a"));
    assert!(!RemoveRule::exact("x", "a").matches("a "));
    assert!(RemoveRule::regex("x", "b+").unwrap().matches("abbc"));
    assert_eq!(RemoveRule::exact("role", "none").attr_name(), "role");
}

#[test]
fn cloned_regex_rule_still_matches() {
    let rule = RemoveRule::regex("data-x", "^tmp-[0-9]+$").unwrap();
    let copy = rule.clone();
    assert_eq!(copy.attr_name(), "data-x");
    assert!(copy.matches("tmp-42"));
    assert!(!copy.matches("keep"));
    let html = r#"<div data-x="tmp-7">a</div><div data-x="keep">b</div>"#;
    assert_eq!(process(html, &[copy]).unwrap(), process(html, &[rule]).unwrap());
}
