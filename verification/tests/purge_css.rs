use hemmer::transformers::purge_css::{collect_usage, is_safelisted, process};

#[test]
fn test_removes_unused_class() {
    let html = r#"<html><head><style>
        .used { color: red; }
        .extra-rule { color: blue; }
    </style></head>
    <body><div class="used">Hi</div></body></html>"#;
    let result = process(html).unwrap();
    assert!(result.contains(".used"));
    assert!(!result.contains(".extra-rule"));
}

#[test]
fn test_keeps_used_classes() {
    let html = r#"<html><head><style>
        .a { color: red; }
        .b { color: blue; }
    </style></head>
    <body><div class="a b">Hi</div></body></html>"#;
    let result = process(html).unwrap();
    assert!(result.contains(".a"));
    assert!(result.contains(".b"));
}

#[test]
fn test_removes_unused_tag() {
    let html = r#"<html><head><style>
        div { color: red; }
        blockquote { color: green; }
    </style></head>
    <body><div>Hi</div></body></html>"#;
    let result = process(html).unwrap();
    assert!(result.contains("div { color: red"));
    assert!(!result.contains("blockquote"));
}

#[test]
fn test_keeps_safelisted_gmail_class() {
    let html = r#"<html><head><style>
        .gmail-fix { font-size: 14px; }
        .unused-thing { color: blue; }
    </style></head><body></body></html>"#;
    let result = process(html).unwrap();
    assert!(result.contains(".gmail-fix"));
    assert!(!result.contains(".unused-thing"));
}

#[test]
fn test_keeps_apple_safelist() {
    let html = r#"<html><head><style>
        .apple-link { color: blue; }
    </style></head><body></body></html>"#;
    let result = process(html).unwrap();
    assert!(result.contains(".apple-link"));
}

#[test]
fn test_keeps_id_selector() {
    let html = r##"<html><head><style>
        #header { color: red; }
        #footer { color: blue; }
    </style></head>
    <body><div id="header">Hi</div></body></html>"##;
    let result = process(html).unwrap();
    assert!(result.contains("#header"));
    assert!(!result.contains("#footer"));
}

#[test]
fn test_keeps_media_query() {
    let html = r#"<html><head><style>
        @media (max-width: 600px) {
            .responsive { width: 100%; }
        }
    </style></head>
    <body></body></html>"#;
    let result = process(html).unwrap();
    assert!(result.contains("@media"));
    assert!(result.contains("max-width: 600px"));
}

#[test]
fn test_keeps_template_syntax() {
    let html = r#"<html><head><style>
        .{{class_name}} { color: red; }
    </style></head><body></body></html>"#;
    let result = process(html).unwrap();
    assert!(result.contains("{{class_name}}"));
}

#[test]
fn test_comma_separated_selector_kept_if_one_matches() {
    let html = r#"<html><head><style>
        .foo, .bar { color: red; }
    </style></head>
    <body><div class="foo">Hi</div></body></html>"#;
    let result = process(html).unwrap();
    assert!(result.contains(".foo"));
}

#[test]
fn test_pseudo_class_selector_kept() {
    let html = r#"<html><head><style>
        a:hover { color: red; }
    </style></head>
    <body><a href="x">link</a></body></html>"#;
    let result = process(html).unwrap();
    assert!(result.contains("a:hover"));
}

#[test]
fn test_descendant_selector() {
    let html = r#"<html><head><style>
        .parent .child { color: red; }
    </style></head>
    <body><div class="parent"><span class="child">Hi</span></div></body></html>"#;
    let result = process(html).unwrap();
    assert!(result.contains(".child"));
}

// ─── further cases ───

fn chars(s: &str) -> Vec<char> {
    s.chars().collect()
}

#[test]
fn safelist_cases() {
    assert!(is_safelisted(&chars("gmail-x")));
    assert!(is_safelisted(&chars("mail-y")));
    assert!(is_safelisted(&chars("body")));
    assert!(is_safelisted(&chars("data-ogs")));
    assert!(!is_safelisted(&chars("bodyx")));
    assert!(!is_safelisted(&chars("xgmail")));
}

#[test]
fn compound_selector_needs_every_part() {
    let html = r#"<html><head><style>p.lead { color: red; } div.lead { color: blue; }</style></head><body><div class="lead">x</div></body></html>"#;
    let result = process(html).unwrap();
    assert!(result.contains("div.lead"));
    assert!(!result.contains("p.lead"));
}

#[test]
fn attribute_parts_do_not_hide_unused_classes() {
    let html = r#"<html><head><style>[data-x].foo { a: b; } .foo[data-x] { c: d; } [data-x].bar { e: f; } .bar:hover { g: h; } .bar:not(.zz) { i: j; }</style></head><body><div data-x class="bar">x</div></body></html>"#;
    let result = process(html).unwrap();
    assert!(!result.contains("[data-x].foo"));
    assert!(!result.contains(".foo[data-x]"));
    assert!(result.contains("[data-x].bar"));
    assert!(result.contains(".bar:hover"));
    assert!(result.contains(".bar:not(.zz)"));
}

#[test]
fn collected_usage_holds_each_name_once() {
    let u = collect_usage(r#"<P class="a b a" id="x"></P><p class="b" id="x"><span class="c"></span></p>"#).unwrap();
    assert_eq!(u.tags, vec!["p".to_string(), "span".to_string()]);
    assert_eq!(u.classes, vec!["a".to_string(), "b".to_string(), "c".to_string()]);
    assert_eq!(u.ids, vec!["x".to_string()]);
}
