use hemmer::transformers::{email_compat_css, inline_css, minify};
use hemmer::Pipeline;
use hemmer::{Error, InlineCssConfig};

#[test]
fn error_messages() {
    assert_eq!(Error::HtmlRewrite("x".to_string()).message(), "HTML rewriting failed: x");
    assert_eq!(Error::CssParse("y".to_string()).message(), "CSS parsing failed: y");
    assert_eq!(Error::Minify.message(), "HTML minification failed");
}

#[test]
fn inline_css_default_config() {
    let c = InlineCssConfig::default();
    assert!(c.keep_style_tags);
    assert!(c.apply_width_attributes);
    assert!(c.apply_height_attributes);
    assert!(c.extra_css.is_none());
    assert!(!c.keep_link_tags);
}

#[test]
fn inline_css_extra_css_and_dropped_style() {
    let config = InlineCssConfig {
        keep_style_tags: false,
        apply_width_attributes: true,
        apply_height_attributes: true,
        extra_css: Some("p { margin: 0; }".to_string()),
        keep_link_tags: false,
    };
    let out = inline_css::process("<html><head><style>p{color:red}</style></head><body><p>x</p></body></html>", &config).unwrap();
    assert!(out.contains("margin: 0"));
    assert!(out.contains("color: red"));
    assert!(!out.contains("<style>"));
}

#[test]
fn inline_css_failure_is_css_inline_error() {
    let config = InlineCssConfig::default();
    let r = inline_css::process(r#"<html><head><link rel="stylesheet" href="missing.css"></head><body></body></html>"#, &config);
    let e = r.err().expect("a stylesheet that cannot be loaded is an error");
    assert!(matches!(e, Error::CssInline(_)));
    assert_eq!(e.message(), "CSS inlining failed: Loading local files requires the `file` feature");
}

#[test]
fn css_inline_message_carries_the_detail() {
    let e = Error::CssInline("Unexpected token".to_string());
    assert_eq!(e.message(), "CSS inlining failed: Unexpected token");
}

#[test]
fn minify_keeps_content() {
    let out = minify::process("<p>  a   b  </p>").unwrap();
    assert!(out.contains("a b"));
    assert!(out.len() < "<p>  a   b  </p>".len());
}

#[test]
fn ambiguous_markup_is_a_rewrite_error() {
    let html = "<select><xmp><script>x</script></select>";
    match email_compat_css::process(html) {
        Err(Error::HtmlRewrite(m)) => assert!(m.starts_with("The parser has encountered a text content tag (`<xmp>`)")),
        other => panic!("expected a rewrite error, got {:?}", other.map(|_| ())),
    }
    let e = Pipeline::new().process(html).err().expect("the pipeline stops on the error");
    assert!(e.message().starts_with("HTML rewriting failed: The parser has encountered"));
}
