use hemmer::transformers::class_cleanup::{extract_class_selectors, extract_media_classes, process};

#[test]
fn test_extract_class_selectors() {
    let css = ".foo { color: red; } .bar-baz { padding: 10px; }";
    let classes = extract_class_selectors(css);
    assert!(classes.contains(&"foo".to_string()));
    assert!(classes.contains(&"bar-baz".to_string()));
}

#[test]
fn test_extract_media_classes() {
    let css = r#"
        .always { color: red; }
        @media (max-width: 600px) {
            .mobile-only { display: block; }
            .responsive { width: 100%; }
        }
    "#;
    let classes = extract_media_classes(css);
    assert!(classes.contains(&"mobile-only".to_string()));
    assert!(classes.contains(&"responsive".to_string()));
    assert!(!classes.contains(&"always".to_string()));
}

#[test]
fn test_remove_inlined_classes() {
    let html = r#"<html><head><style>.foo { color: red; }</style></head>
    <body><div class="foo">Hi</div></body></html>"#;
    let result = process(html).unwrap();
    assert!(!result.contains("class=\"foo\""));
}

#[test]
fn test_keep_media_classes() {
    let html = r#"<html><head><style>
        .static-class { color: red; }
        @media (max-width: 600px) { .mobile { display: none; } }
    </style></head>
    <body><div class="static-class mobile">Hi</div></body></html>"#;
    let result = process(html).unwrap();
    assert!(result.contains("class=\"mobile\""));
    assert!(!result.contains("class=\"static-class mobile\""));
    assert!(!result.contains("class=\"mobile static-class\""));
}

#[test]
fn test_no_style_block() {
    let html = r#"<div class="foo">Hi</div>"#;
    let result = process(html).unwrap();
    assert!(!result.contains("class="));
}

// ─── further cases ───

#[test]
fn class_selectors_are_unescaped_in_order() {
    assert_eq!(
        extract_class_selectors(".sm\\:p-4 .a.b .-x . 1.5em"),
        vec!["sm:p-4", "a", "b", "-x", "5em"]
    );
}

#[test]
fn unclosed_media_block_gives_nothing() {
    assert!(extract_media_classes("@media (x) { .a { }").is_empty());
}

#[test]
fn escaped_class_name_keeps_its_escaped_characters() {
    assert_eq!(extract_class_selectors(".sm\\:text-base { font-size: 16px; }"), vec!["sm:text-base".to_string()]);
}
