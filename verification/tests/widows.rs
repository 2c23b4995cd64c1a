use hemmer::transformers::widows::process;

#[test]
fn test_prevent_widows() {
    let html = r#"<p prevent-widows>This is a longer sentence here</p>"#;
    let result = process(html).unwrap();
    assert!(!result.contains("prevent-widows"));
    assert!(result.contains("sentence\u{00a0}here"));
}

#[test]
fn test_short_text_unchanged() {
    let html = r#"<p prevent-widows>Two words</p>"#;
    let result = process(html).unwrap();
    assert!(result.contains("Two words"));
    assert!(!result.contains("prevent-widows"));
}

#[test]
fn test_no_attribute_unchanged() {
    let html = "<p>This is a longer sentence here</p>";
    let result = process(html).unwrap();
    assert!(result.contains("sentence here"));
}

// ─── further cases ───

#[test]
fn no_widows_marker_also_works() {
    let html = r#"<p no-widows>one two three</p>"#;
    let result = process(html).unwrap();
    assert!(!result.contains("no-widows"));
    assert!(result.contains("two\u{00a0}three"));
}

#[test]
fn three_words_is_enough() {
    let result = process(r#"<h1 prevent-widows>a b c</h1>"#).unwrap();
    assert_eq!(result, "<h1>a b\u{00a0}c</h1>");
}

#[test]
fn only_the_last_space_changes() {
    let result = process(r#"<p prevent-widows no-widows class="x">one two  three four</p>"#).unwrap();
    assert_eq!(result, "<p class=\"x\">one two  three\u{00a0}four</p>");
}
