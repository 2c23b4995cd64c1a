use hemmer::transformers::safe_class_names::{make_safe, process};

fn chars(s: &str) -> Vec<char> {
    s.chars().collect()
}

#[test]
fn make_safe_replaces_unsafe_characters() {
    let out: String = make_safe(&chars("sm:w-1/2{x}")).into_iter().collect();
    assert_eq!(out, "sm-w-1-2-x-");
}

#[test]
fn classes_and_selectors_agree() {
    let html = r#"<html><head><style>.w-1\/2 { width: 50%; } .sm\:p-4 { padding: 1px; } .a\.b { x: y; }</style></head><body><div class="  w-1/2   sm:p-4 ">x</div></body></html>"#;
    let result = process(html).unwrap();
    assert!(result.contains(".w-1-2 {"));
    assert!(result.contains(".sm-p-4 {"));
    assert!(result.contains(".a-b {"));
    assert!(result.contains("class=\"w-1-2 sm-p-4\""));
}

#[test]
fn make_safe_twice_is_make_safe_once() {
    let once = make_safe(&chars("md:hover:w-1/3 {a}"));
    let twice = make_safe(&once);
    assert_eq!(once, twice);
    assert_eq!(once.len(), "md:hover:w-1/3 {a}".chars().count());
    assert!(once.iter().all(|c| !matches!(c, '/' | ':' | '{' | '}')));
}

#[test]
fn brackets_percent_and_hash_are_made_safe() {
    let out: String = make_safe(&chars("w-[50%]")).into_iter().collect();
    assert_eq!(out, "w--50--");
    let out: String = make_safe(&chars("bg-[#fff]")).into_iter().collect();
    assert_eq!(out, "bg---fff-");
    let html = r#"<html><head><style>.w-\[50\%\] { width: 50%; }</style></head><body><div class="w-[50%]">x</div></body></html>"#;
    let result = process(html).unwrap();
    assert!(result.contains(".w--50-- {"));
    assert!(result.contains("class=\"w--50--\""));
}
