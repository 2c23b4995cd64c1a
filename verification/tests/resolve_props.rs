use hemmer::transformers::resolve_props::{extract_root_vars, parse_var_declarations, process, resolve_vars};

#[test]
fn test_extract_root_vars() {
    let css = ":root { --primary: #4f46e5; --spacing: 16px; }";
    let vars = extract_root_vars(css);
    assert_eq!(vars.len(), 2);
    assert!(vars.contains(&("primary".to_string(), "#4f46e5".to_string())));
    assert!(vars.contains(&("spacing".to_string(), "16px".to_string())));
}

#[test]
fn test_resolve_simple_var() {
    let vars = vec![("primary".to_string(), "#4f46e5".to_string())];
    assert_eq!(resolve_vars("color: var(--primary)", &vars), "color: #4f46e5");
}

#[test]
fn test_resolve_var_with_fallback() {
    let vars: Vec<(String, String)> = Vec::new();
    assert_eq!(resolve_vars("color: var(--missing, red)", &vars), "color: red");
}

#[test]
fn test_resolve_unknown_var_no_fallback() {
    let vars: Vec<(String, String)> = Vec::new();
    assert_eq!(resolve_vars("color: var(--missing)", &vars), "color: var(--missing)");
}

#[test]
fn test_full_html_pipeline() {
    let html = r#"<html><head><style>:root { --primary: #4f46e5; }</style></head>
    <body><div style="color: var(--primary);">Hi</div></body></html>"#;
    let result = process(html).unwrap();
    assert!(result.contains("color: #4f46e5"));
    assert!(!result.contains("var(--primary)"));
}

#[test]
fn test_no_vars_unchanged() {
    let html = r#"<div style="color: red">Hi</div>"#;
    let result = process(html).unwrap();
    assert_eq!(result, html);
}

// ─── further cases ───

#[test]
fn later_declaration_wins() {
    let vars = vec![
        ("c".to_string(), "red".to_string()),
        ("c".to_string(), "blue".to_string()),
    ];
    assert_eq!(resolve_vars("var(--c) var(c)", &vars), "blue blue");
}

#[test]
fn declarations_parse() {
    let block: Vec<char> = " --a: 1px ; color: red; --b:2; junk".chars().collect();
    assert_eq!(
        parse_var_declarations(&block),
        vec![("a".to_string(), "1px".to_string()), ("b".to_string(), "2".to_string())]
    );
}

#[test]
fn non_root_rules_are_ignored() {
    assert!(extract_root_vars(".x { --a: 1; } a:hover { --b: 2; }").is_empty());
    assert_eq!(extract_root_vars(": root{--a:1}").len(), 1);
}

#[test]
fn universal_rule_declarations_are_collected() {
    assert_eq!(extract_root_vars("* { --a: 1px; }"), vec![("a".to_string(), "1px".to_string())]);
    assert_eq!(
        extract_root_vars(":root { --a: 1px; } .x * { --b: 2px; } p{} * {--c: 3px}"),
        vec![("a".to_string(), "1px".to_string()), ("c".to_string(), "3px".to_string())]
    );
}
