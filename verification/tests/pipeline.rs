use hemmer::transformers::remove_attributes::RemoveRule;
use hemmer::{InlineCssConfig, Pipeline};

const EMAIL_HTML: &str = r##"<!DOCTYPE html>
<html>
<head>
    <style>
        .text-lg { font-size: 18px; }
        .text-gray-600 { color: #666666; }
        .p-4 { padding: 16px; }
        .bg-blue-500 { background-color: #3b82f6; }
        .w-1\/2 { width: 50%; }
        @media (max-width: 600px) {
            .sm\:text-base { font-size: 16px; }
        }
    </style>
</head>
<body>
    <table>
        <tr>
            <td class="p-4 bg-blue-500" bgcolor="#fff">
                <h1 class="text-lg">Welcome!</h1>
                <p class="text-gray-600">Hello world</p>
                <img src="logo.png">
            </td>
        </tr>
    </table>
</body>
</html>"##;

#[test]
fn test_full_pipeline() {
    let result = Pipeline::new().process(EMAIL_HTML).unwrap();
    let html = &result.html;
    assert!(html.contains("font-size: 18px"), "text-lg should be inlined");
    assert!(html.contains("padding: 16px"), "p-4 should be inlined");
    assert!(html.contains("cellpadding=\"0\""), "table should have cellpadding");
    assert!(html.contains("cellspacing=\"0\""), "table should have cellspacing");
    assert!(html.contains("role=\"none\""), "table should have role=none");
    assert!(html.contains("alt=\"\""), "img should have empty alt");
    assert!(html.contains("#ffffff"), "#fff should become #ffffff");
    assert!(!html.contains("bgcolor=\"#fff\""), "short hex should be gone");
}

#[test]
fn test_safe_class_names() {
    let html = r##"<html><head><style>
        .w-1\/2 { width: 50%; }
        .sm\:text-base { font-size: 16px; }
    </style></head>
    <body><div class="w-1\/2 sm\:text-base">Test</div></body></html>"##;

    let result = Pipeline::new().no_inline_css().process(html).unwrap();

    assert!(result.html.contains("w-1-2"), "slash should be replaced with dash");
    assert!(result.html.contains("sm-text-base"), "colon should be replaced with dash");
    assert!(!result.html.contains("\\/"), "escaped slash should be gone");
    assert!(!result.html.contains("\\:"), "escaped colon should be gone");
}

#[test]
fn test_minimal_pipeline() {
    let html = "<table><tr><td><img src=\"test.png\"></td></tr></table>";
    let result = Pipeline::minimal().process(html).unwrap();
    assert!(!result.html.contains("cellpadding"), "minimal should not add attributes");
    assert!(!result.html.contains("alt="), "minimal should not add alt");
}

#[test]
fn minimal_pipeline_is_identity() {
    let html = "<p class=\"sm:x\" style=\"\">calc(1px + 1px) <outlook>x</outlook></p>";
    let result = Pipeline::minimal().process(html).unwrap();
    assert_eq!(result.html, html);
}

#[test]
fn test_minification() {
    let html = r#"<html>
    <head></head>
    <body>
        <p>Hello    world</p>
    </body>
</html>"#;
    let result = Pipeline::minimal().minify(true).process(html).unwrap();
    assert!(result.html.len() < html.len(), "minified should be smaller");
    assert!(result.html.contains("Hello"), "content should be preserved");
}

#[test]
fn test_pipeline_builder() {
    let result = Pipeline::minimal()
        .default_attributes(true)
        .six_digit_hex(true)
        .process("<table bgcolor=\"#abc\"><tr><td>Hi</td></tr></table>")
        .unwrap();
    assert!(result.html.contains("cellpadding=\"0\""));
    assert!(result.html.contains("#aabbcc"));
}

#[test]
fn test_tailwind_pipeline() {
    let html = r##"<html>
<head></head>
<body>
    <table>
        <tr>
            <td class="p-4 bg-blue-500 text-white">
                <h1 class="text-lg font-bold">Hello from Tailwind!</h1>
                <p class="text-gray-600 mt-2">This email was styled with Tailwind utilities.</p>
            </td>
        </tr>
    </table>
</body>
</html>"##;
    let result = Pipeline::with_tailwind().process(html).unwrap();
    let out = &result.html;
    assert!(out.contains("padding:"), "p-4 should produce padding");
    assert!(out.contains("font-weight:"), "font-bold should produce font-weight");
    assert!(out.contains("cellpadding=\"0\""), "table should have default attrs");
    assert!(out.contains("style="), "styles should be inlined");
}

#[test]
fn test_tailwind_generates_only_used_css() {
    let html = r#"<html><head></head><body><div class="p-4">Test</div></body></html>"#;
    let result = Pipeline::with_tailwind().no_inline_css().process(html).unwrap();
    assert!(result.html.contains("<style>"), "should inject style tag");
    assert!(result.html.contains("padding:"), "should contain padding for p-4");
    assert!(!result.html.contains("bg-blue"), "should not contain unused class CSS");
}

// ─── further cases ───

#[test]
fn inline_only_pipeline() {
    let html = r#"<html><head><style>p { color: red; }</style></head><body><p>x</p></body></html>"#;
    let result = Pipeline::minimal().inline_css(InlineCssConfig::default()).process(html).unwrap();
    assert!(result.html.contains("style=\"color: red;\""), "got {}", result.html);
}

#[test]
fn builder_steps_compose() {
    let html = r#"<a href="/x" data-tmp="1" style="">y</a>"#;
    let result = Pipeline::minimal()
        .base_url("https://e.com/")
        .url_params(vec![("u".to_string(), "1".to_string())])
        .remove_attributes(vec![RemoveRule::empty("style")])
        .add_remove_rule(RemoveRule::always("data-tmp"))
        .process(html)
        .unwrap();
    assert_eq!(result.html, r#"<a href="https://e.com/x?u=1">y</a>"#);
}

#[test]
fn attribute_to_style_and_calc_steps() {
    let html = r#"<td width="20" style="height: calc(2px * 5)">x</td>"#;
    let result = Pipeline::minimal()
        .attribute_to_style(vec!["width".to_string()])
        .resolve_calc(true)
        .process(html)
        .unwrap();
    assert_eq!(result.html, r#"<td width="20" style="height: 10px; width: 20px">x</td>"#);
}
