//! The individual email transformations.
pub mod email_compat_css;
pub mod outlook_tags;
pub mod purge_css;
pub mod resolve_calc;
pub mod resolve_props;
pub mod class_cleanup;
pub mod attribute_to_style;
pub mod remove_attributes;
pub mod style_to_attr;
pub mod html_transforms;
pub mod url_params;
pub mod safe_class_names;
pub mod widows;
pub mod meta_tags;
pub mod base_url;
pub mod inline_css;
pub mod minify;
pub mod tailwind;
