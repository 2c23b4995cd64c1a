use hemmer::transformers::resolve_calc::{process, resolve_calcs, try_evaluate};

#[test]
fn test_simple_addition() {
    assert_eq!(resolve_calcs("calc(10px + 5px)"), "15px");
    assert_eq!(resolve_calcs("calc(100% + 20%)"), "120%");
}

#[test]
fn test_subtraction() {
    assert_eq!(resolve_calcs("calc(20px - 5px)"), "15px");
    assert_eq!(resolve_calcs("calc(100% - 25%)"), "75%");
}

#[test]
fn test_multiplication() {
    assert_eq!(resolve_calcs("calc(2 * 10px)"), "20px");
    assert_eq!(resolve_calcs("calc(10px * 3)"), "30px");
}

#[test]
fn test_division() {
    assert_eq!(resolve_calcs("calc(20px / 2)"), "10px");
}

#[test]
fn test_precedence() {
    assert_eq!(resolve_calcs("calc(10px + 2 * 5px)"), "20px");
}

#[test]
fn test_mixed_units_unchanged() {
    let input = "calc(100% - 20px)";
    assert_eq!(resolve_calcs(input), input);
}

#[test]
fn test_in_property() {
    assert_eq!(
        resolve_calcs("width: calc(50px + 10px); padding: calc(2 * 8px)"),
        "width: 60px; padding: 16px"
    );
}

#[test]
fn test_no_calc_unchanged() {
    assert_eq!(resolve_calcs("color: red"), "color: red");
}

#[test]
fn test_html_pipeline() {
    let html = r#"<div style="width: calc(100px + 50px);">Hi</div>"#;
    let result = process(html).unwrap();
    assert!(result.contains("width: 150px"));
    assert!(!result.contains("calc"));
}

// ─── further cases ───

fn eval(s: &str) -> Option<String> {
    let v: Vec<char> = s.chars().collect();
    try_evaluate(&v).map(|r| r.into_iter().collect())
}

#[test]
fn parentheses_signs_and_fractions() {
    assert_eq!(eval("(1px + 2px) * 3"), Some("9px".to_string()));
    assert_eq!(eval("10px / 3"), Some("3.333px".to_string()));
    assert_eq!(eval("10px / 4"), Some("2.5px".to_string()));
    assert_eq!(eval("2px / 3"), Some("0.667px".to_string()));
    assert_eq!(eval("-5px + -5px"), Some("-10px".to_string()));
    assert_eq!(eval("1.5em * 2"), Some("3em".to_string()));
    assert_eq!(eval(".5 + 1.25"), Some("1.75".to_string()));
    assert_eq!(eval("0.0001px * -1"), Some("-0px".to_string()));
}

#[test]
fn unevaluable_bodies() {
    assert_eq!(eval(""), None);
    assert_eq!(eval("   "), None);
    assert_eq!(eval("1px / 0"), None);
    assert_eq!(eval("2px * 3px"), None);
    assert_eq!(eval("(1px + 2px"), None);
    assert_eq!(eval("1.2.3px"), None);
    assert_eq!(eval("var(--x)"), None);
    assert_eq!(eval("1px 2px"), None);
    assert_eq!(eval("- 5px"), None);
}

#[test]
fn unclosed_and_nested_calc() {
    assert_eq!(resolve_calcs("calc(1px + 2px"), "calc(1px + 2px");
    assert_eq!(resolve_calcs("calc(calc(1px) + 2px)"), "3px");
    assert_eq!(resolve_calcs("a calc(1px + 1px) b calc(2px*2)"), "a 2px b 4px");
}

#[test]
fn arithmetic_is_exact() {
    // With exact fractions, a third times three is one again.
    assert_eq!(eval("1px / 3 * 3"), Some("1px".to_string()));
    assert_eq!(eval("0.1 + 0.2"), Some("0.3".to_string()));
    assert_eq!(eval("10px / 4 * 4 - 10px"), Some("0px".to_string()));
}

#[test]
fn nested_calc_and_unitless_divisor() {
    assert_eq!(resolve_calcs("calc(calc(1px + 2px) + 3px)"), "6px");
    assert_eq!(resolve_calcs("calc(2 * calc(1px + 1px))"), "4px");
    assert_eq!(eval("10 / 2px"), None);
    assert_eq!(eval("10px / 2"), Some("5px".to_string()));
}
