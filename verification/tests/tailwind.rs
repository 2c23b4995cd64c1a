use hemmer::transformers::tailwind::{add_dark_mode_protection, add_email_screens, email_config, inject_style, process_css};

fn generate(html: &str, config: &encre_css::Config) -> String {
    encre_css::generate([html], config)
}

#[test]
fn test_email_config_uses_hex_colors() {
    let config = email_config();
    let css = generate(r#"<div class="bg-indigo-600">x</div>"#, &config);
    assert!(css.contains("#4f46e5"), "should use hex, got: {css}");
    assert!(!css.contains("oklch"), "should not contain oklch");
}

#[test]
fn test_email_config_no_preflight() {
    let config = email_config();
    let css = generate(r#"<div class="text-sm">x</div>"#, &config);
    assert!(!css.contains("box-sizing: border-box"));
}

#[test]
fn test_dark_mode_protection_changes_black() {
    let mut config = email_config();
    add_dark_mode_protection(&mut config);
    let css = generate(r#"<div class="text-black">x</div>"#, &config);
    assert!(css.contains("#000001"), "expected #000001, got: {css}");
    assert!(!css.contains("#000;") && !css.contains("#000000"));
}

#[test]
fn test_dark_mode_protection_changes_white() {
    let mut config = email_config();
    add_dark_mode_protection(&mut config);
    let css = generate(r#"<div class="bg-white">x</div>"#, &config);
    assert!(css.contains("#fffffe"), "expected #fffffe, got: {css}");
    assert!(!css.contains("#fff;") && !css.contains("#ffffff;"));
}

#[test]
fn test_dark_mode_protection_not_applied_by_default() {
    let config = email_config();
    let css = generate(r#"<div class="text-black bg-white">x</div>"#, &config);
    assert!(!css.contains("#000001"));
    assert!(!css.contains("#fffffe"));
}

#[test]
fn test_email_screens_sm_value() {
    let mut config = email_config();
    add_email_screens(&mut config);
    let css = generate(r#"<div class="max-sm:text-sm">x</div>"#, &config);
    assert!(css.contains("600px"), "expected 600px breakpoint, got: {css}");
    assert!(css.contains("@media"), "expected media query, got: {css}");
}

#[test]
fn test_email_screens_xs_value() {
    let mut config = email_config();
    add_email_screens(&mut config);
    let css = generate(r#"<div class="max-xs:text-xs">x</div>"#, &config);
    assert!(css.contains("430px"), "expected 430px breakpoint, got: {css}");
}

#[test]
fn test_email_screens_not_applied_by_default() {
    let config = email_config();
    let css = generate(r#"<div class="max-sm:text-sm">x</div>"#, &config);
    assert!(!css.contains("600px"));
}

#[test]
fn test_helpers_can_be_combined() {
    let mut config = email_config();
    add_dark_mode_protection(&mut config);
    add_email_screens(&mut config);
    let css = generate(r#"<div class="text-black max-sm:bg-white">x</div>"#, &config);
    assert!(css.contains("#000001"));
    assert!(css.contains("#fffffe"));
    assert!(css.contains("600px"));
}

// ─── further cases ───

#[test]
fn added_scales_use_hex() {
    let config = email_config();
    let css = generate(r#"<div class="bg-stone-500 text-lime-600">x</div>"#, &config);
    assert!(css.contains("#78716c"), "got: {css}");
    assert!(css.contains("#65a30d"), "got: {css}");
}

#[test]
fn injection_goes_into_first_head() {
    let out = inject_style("<html><head><title>t</title></head><head></head></html>", ".a{}").unwrap();
    assert_eq!(out, "<html><head><title>t</title><style>.a{}</style></head><head></head></html>");
}

#[test]
fn injection_without_head_goes_in_front() {
    let out = inject_style("<p>x</p>", ".a{}").unwrap();
    assert_eq!(out, "<style>.a{}</style><p>x</p>");
}

#[test]
fn injection_without_head_goes_before_html_end() {
    let out = inject_style("<html><body>x</body></html>", "a{}").unwrap();
    assert_eq!(out, "<html><body>x</body><style>a{}</style></html>");
}

#[test]
fn blank_css_leaves_document() {
    assert_eq!(process_css("<p>x</p>", "  \n ").unwrap(), "<p>x</p>");
}

#[test]
fn palette_names_map_to_their_hex() {
    let html = r#"<div class="bg-stone-950 text-lime-50 border-slate-500"></div>"#;
    let css = generate(html, &email_config());
    assert!(css.contains("#0c0a09"), "stone-950");
    assert!(css.contains("#f7fee7"), "lime-50");
    assert!(css.contains("#64748b"), "slate-500");
}

#[test]
fn helpers_leave_other_settings() {
    let mut config = email_config();
    config.theme.dark_mode = encre_css::config::DarkMode::new_class(".dark");
    config.safelist.add("keep-me");
    let before_safelist = config.safelist.clone();
    let before_dark = config.theme.dark_mode.clone();
    let before_screens = config.theme.screens.clone();
    add_dark_mode_protection(&mut config);
    assert_eq!(config.safelist, before_safelist);
    assert_eq!(config.theme.dark_mode, before_dark);
    assert_eq!(config.theme.screens, before_screens);
    let before_colors = config.theme.colors.clone();
    add_email_screens(&mut config);
    assert_eq!(config.safelist, before_safelist);
    assert_eq!(config.theme.dark_mode, before_dark);
    assert_eq!(config.theme.colors, before_colors);
}
