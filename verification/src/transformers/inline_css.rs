//! CSS inlining through `css-inline`.
use vstd::prelude::*;
use std::borrow::Cow;
use crate::error::{Error, ErrorView};

verus! {

broadcast use vstd::string::group_string_axioms;

/// Configuration for CSS inlining.
pub struct InlineCssConfig {
    /// Keep `<style>` tags after inlining (for media queries, etc.).
    pub keep_style_tags: bool,
    /// Convert CSS width to HTML attributes on images and videos.
    pub apply_width_attributes: bool,
    /// Convert CSS height to HTML attributes on images and videos.
    pub apply_height_attributes: bool,
    /// Extra CSS to inline along with the document's.
    pub extra_css: Option<String>,
    /// Keep `<link>` tags after inlining.
    pub keep_link_tags: bool,
}

/// The settings of a configuration: whether `<style>` tags stay, whether
/// width and height attributes are asked for, the extra CSS, and whether
/// `<link>` tags stay.
pub struct InlineSettings {
    pub keep_style_tags: bool,
    pub apply_width_attributes: bool,
    pub apply_height_attributes: bool,
    pub extra_css: Option<Seq<char>>,
    pub keep_link_tags: bool,
}

impl View for InlineCssConfig {
    type V = InlineSettings;

    open spec fn view(&self) -> InlineSettings {
        InlineSettings {
            keep_style_tags: self.keep_style_tags,
            apply_width_attributes: self.apply_width_attributes,
            apply_height_attributes: self.apply_height_attributes,
            extra_css: match self.extra_css {
                Some(s) => Some(s@),
                None => None,
            },
            keep_link_tags: self.keep_link_tags,
        }
    }
}

impl Default for InlineCssConfig {
    /// Style tags kept, width and height attributes applied, no extra CSS,
    /// link tags dropped.
    fn default() -> (r: Self)
        ensures
            r.keep_style_tags,
            r.apply_width_attributes,
            r.apply_height_attributes,
            r.extra_css is None,
            !r.keep_link_tags,
    {
        InlineCssConfig {
            keep_style_tags: true,
            apply_width_attributes: true,
            apply_height_attributes: true,
            extra_css: None,
            keep_link_tags: false,
        }
    }
}

/// What `css_inline::CSSInliner::inline` makes of `html` with these
/// options (style tags kept or not, link tags kept or not, extra CSS): the
/// inlined document, or the text of the error that it reports. A function of
/// its arguments: this crate builds `css-inline` without its `file` and
/// `http` features, so a linked stylesheet is never read from the file
/// system or the network and fails with a fixed message.
pub uninterp spec fn inline_outcome(html: Seq<char>, keep_style_tags: bool, keep_link_tags: bool, extra_css: Option<Seq<char>>) -> Result<Seq<char>, Seq<char>>;

/// `CSSInliner::options()` with the given settings, built, then
/// `inline(html)`; an error is turned into its text through its `Display`.
#[verifier::external_body]
fn inline_with(html: &str, keep_style_tags: bool, keep_link_tags: bool, extra_css: Option<&str>) -> (r: Result<String, String>)
    ensures
        inline_outcome(html@, keep_style_tags, keep_link_tags, match extra_css { Some(e) => Some(e@), None => None })
            == match r { Ok(s) => Ok(s@), Err(m) => Err(m@) },
{
    let inliner = css_inline::CSSInliner::options()
        .keep_style_tags(keep_style_tags)
        .keep_link_tags(keep_link_tags)
        .extra_css(extra_css.map(Cow::Borrowed))
        .build();
    match inliner.inline(html) {
        Ok(s) => Ok(s),
        Err(e) => Err(e.to_string()),
    }
}

/// What inlining with `config` makes of `html`: the document, or the
/// inliner's error text.
pub open spec fn spec_inline(html: Seq<char>, config: InlineSettings) -> Result<Seq<char>, Seq<char>> {
    inline_outcome(html, config.keep_style_tags, config.keep_link_tags, config.extra_css)
}

/// Moves the rules of `<style>` blocks into `style` attributes.
pub fn process(html: &str, config: &InlineCssConfig) -> (r: Result<String, Error>)
    ensures
        match spec_inline(html@, config@) {
            Ok(s) => r matches Ok(o) && o@ == s,
            Err(m) => r matches Err(e) && e@ == ErrorView::CssInline(m),
        },
{
    let extra = match &config.extra_css {
        Some(e) => Some(e.as_str()),
        None => None,
    };
    match inline_with(html, config.keep_style_tags, config.keep_link_tags, extra) {
        Ok(s) => Ok(s),
        Err(m) => Err(Error::CssInline(m)),
    }
}

} // verus!
