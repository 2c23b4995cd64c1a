//! The configurable pipeline that runs the transformations in a fixed order.
use vstd::prelude::*;
use vstd::utf8::{decode_utf8, valid_utf8};
use crate::error::{Error, ErrorView};
use crate::rewrite::{rewrite_outcome, LogView, RuleView};
use crate::text::lowercase;
use crate::transformers::{
    attribute_to_style, base_url, class_cleanup, email_compat_css, html_transforms, inline_css, meta_tags, minify,
    outlook_tags, purge_css, remove_attributes, resolve_calc, resolve_props, safe_class_names, style_to_attr, tailwind,
    url_params, widows,
};
use crate::transformers::inline_css::{InlineCssConfig, InlineSettings};
use crate::transformers::remove_attributes::{RemoveRule, RuleSpec};
use crate::transformers::tailwind::{config_colors, config_preflight_none, config_screens, email_palette, insert_all};

verus! {

broadcast use vstd::string::group_string_axioms;

/// Result of processing an email through the pipeline.
pub struct PipelineResult {
    pub html: String,
}

/// Configurable email HTML transformation pipeline.
///
/// Transformations run in a fixed, email-optimized order: Tailwind CSS
/// generation, Outlook tags, safe class names, attributes to style, CSS
/// inlining, custom properties, `calc()`, email CSS compatibility, style to
/// attributes, default attributes and six-digit hex colours, widows, class
/// cleanup, CSS purging, attribute removal, base URL, URL parameters, meta
/// tags, minification.
pub struct Pipeline {
    tailwind: Option<encre_css::Config>,
    outlook_tags: bool,
    safe_class_names: bool,
    attribute_to_style: Vec<String>,
    inline_css: Option<InlineCssConfig>,
    resolve_props: bool,
    resolve_calc: bool,
    email_compat_css: bool,
    style_to_attr: bool,
    default_attributes: bool,
    six_digit_hex: bool,
    prevent_widows: bool,
    class_cleanup: bool,
    purge_css: bool,
    base_url: Option<String>,
    url_params: Vec<(String, String)>,
    meta_tags: bool,
    remove_attributes: Vec<RemoveRule>,
    minify: bool,
}

/// A pipeline's settings (for Tailwind, only whether it is on).
pub struct PipelineView {
    pub tailwind: bool,
    pub outlook_tags: bool,
    pub safe_class_names: bool,
    pub attribute_to_style: Seq<Seq<char>>,
    pub inline_css: Option<InlineSettings>,
    pub resolve_props: bool,
    pub resolve_calc: bool,
    pub email_compat_css: bool,
    pub style_to_attr: bool,
    pub default_attributes: bool,
    pub six_digit_hex: bool,
    pub prevent_widows: bool,
    pub class_cleanup: bool,
    pub purge_css: bool,
    pub base_url: Option<Seq<char>>,
    pub url_params: Seq<(Seq<char>, Seq<char>)>,
    pub meta_tags: bool,
    pub remove_attributes: Seq<RuleSpec>,
    pub minify: bool,
}

impl View for Pipeline {
    type V = PipelineView;

    closed spec fn view(&self) -> PipelineView {
        PipelineView {
            tailwind: self.tailwind is Some,
            outlook_tags: self.outlook_tags,
            safe_class_names: self.safe_class_names,
            attribute_to_style: class_cleanup::strings_view(self.attribute_to_style@),
            inline_css: match self.inline_css {
                Some(c) => Some(c@),
                None => None,
            },
            resolve_props: self.resolve_props,
            resolve_calc: self.resolve_calc,
            email_compat_css: self.email_compat_css,
            style_to_attr: self.style_to_attr,
            default_attributes: self.default_attributes,
            six_digit_hex: self.six_digit_hex,
            prevent_widows: self.prevent_widows,
            class_cleanup: self.class_cleanup,
            purge_css: self.purge_css,
            base_url: match self.base_url {
                Some(b) => Some(b@),
                None => None,
            },
            url_params: url_params::params_view(self.url_params@),
            meta_tags: self.meta_tags,
            remove_attributes: remove_attributes::rules_view(self.remove_attributes@),
            minify: self.minify,
        }
    }
}

impl Pipeline {
    /// The Tailwind configuration, when generation is on.
    pub closed spec fn tailwind_config(self) -> Option<encre_css::Config> {
        self.tailwind
    }
}

/// The settings of `Pipeline::new()`: everything but Tailwind, attribute to
/// style, CSS purging, base URL, URL parameters and minification on; CSS
/// inlined with the default configuration; blank `style` and `class`
/// attributes removed.
pub open spec fn default_view() -> PipelineView {
    PipelineView {
        tailwind: false,
        outlook_tags: true,
        safe_class_names: true,
        attribute_to_style: seq![],
        inline_css: Some(InlineSettings {
            keep_style_tags: true,
            apply_width_attributes: true,
            apply_height_attributes: true,
            extra_css: None,
            keep_link_tags: false,
        }),
        resolve_props: true,
        resolve_calc: true,
        email_compat_css: true,
        style_to_attr: true,
        default_attributes: true,
        six_digit_hex: true,
        prevent_widows: true,
        class_cleanup: true,
        purge_css: false,
        base_url: None,
        url_params: seq![],
        meta_tags: true,
        remove_attributes: seq![RuleSpec::Empty("style"@), RuleSpec::Empty("class"@)],
        minify: false,
    }
}

/// The settings of `Pipeline::minimal()`: everything off.
pub open spec fn minimal_view() -> PipelineView {
    PipelineView {
        tailwind: false,
        outlook_tags: false,
        safe_class_names: false,
        attribute_to_style: seq![],
        inline_css: None,
        resolve_props: false,
        resolve_calc: false,
        email_compat_css: false,
        style_to_attr: false,
        default_attributes: false,
        six_digit_hex: false,
        prevent_widows: false,
        class_cleanup: false,
        purge_css: false,
        base_url: None,
        url_params: seq![],
        meta_tags: false,
        remove_attributes: seq![],
        minify: false,
    }
}

// ───────────────────────────── the steps ─────────────────────────────

/// The document a rewriting pass produced, or its error.
pub open spec fn rewritten(o: Result<(Seq<char>, LogView), Seq<char>>) -> Result<Seq<char>, ErrorView> {
    match o {
        Ok((s, _)) => Ok(s),
        Err(m) => Err(ErrorView::HtmlRewrite(m)),
    }
}

/// The error of a collecting pass over `h` (when it fails).
pub open spec fn collect_error(h: Seq<char>) -> ErrorView {
    ErrorView::HtmlRewrite(rewrite_outcome(h, "style"@, true, RuleView::Collect)->Err_0)
}

/// How many steps follow Tailwind generation.
pub const STEP_COUNT: usize = 17;

/// Whether step `k` is on.
pub open spec fn step_enabled(p: PipelineView, k: int) -> bool {
    if k == 0 { p.outlook_tags }
    else if k == 1 { p.safe_class_names }
    else if k == 2 { p.attribute_to_style.len() > 0 }
    else if k == 3 { p.inline_css is Some }
    else if k == 4 { p.resolve_props }
    else if k == 5 { p.resolve_calc }
    else if k == 6 { p.email_compat_css }
    else if k == 7 { p.style_to_attr }
    else if k == 8 { p.default_attributes || p.six_digit_hex }
    else if k == 9 { p.prevent_widows }
    else if k == 10 { p.class_cleanup }
    else if k == 11 { p.purge_css }
    else if k == 12 { p.remove_attributes.len() > 0 }
    else if k == 13 { p.base_url is Some }
    else if k == 14 { p.url_params.len() > 0 }
    else if k == 15 { p.meta_tags }
    else { p.minify }
}

/// What step `k` makes of a document, when it is on: the result of the
/// transformer's `process`, or its error.
pub open spec fn step_result(p: PipelineView, k: int, h: Seq<char>) -> Result<Seq<char>, ErrorView> {
    if k == 0 {
        Ok(outlook_tags::spec_process(h))
    } else if k == 1 {
        rewritten(rewrite_outcome(h, "style"@, true, RuleView::SafeClassNames))
    } else if k == 2 {
        rewritten(rewrite_outcome(h, "style"@, true, RuleView::AttributeToStyle(p.attribute_to_style)))
    } else if k == 3 {
        match inline_css::spec_inline(h, p.inline_css.unwrap()) {
            Ok(s) => Ok(s),
            Err(m) => Err(ErrorView::CssInline(m)),
        }
    } else if k == 4 {
        match resolve_props::spec_collected_vars(h) {
            Some(vars) => if vars.len() == 0 {
                Ok(h)
            } else {
                rewritten(rewrite_outcome(h, "style"@, true, RuleView::ResolveProps(vars)))
            },
            None => Err(collect_error(h)),
        }
    } else if k == 5 {
        rewritten(rewrite_outcome(h, "style"@, true, RuleView::ResolveCalc))
    } else if k == 6 {
        rewritten(rewrite_outcome(h, "style"@, true, RuleView::EmailCompat))
    } else if k == 7 {
        rewritten(rewrite_outcome(h, "style"@, true, RuleView::StyleToAttr))
    } else if k == 8 {
        rewritten(rewrite_outcome(h, "style"@, true, RuleView::HtmlTransforms(p.default_attributes, p.six_digit_hex)))
    } else if k == 9 {
        rewritten(rewrite_outcome(h, "[prevent-widows], [no-widows]"@, true, RuleView::Widows))
    } else if k == 10 {
        match class_cleanup::spec_collected_media_classes(h) {
            Some(m) => rewritten(rewrite_outcome(h, "style"@, true, RuleView::ClassCleanup(m))),
            None => Err(collect_error(h)),
        }
    } else if k == 11 {
        match purge_css::spec_collected_usage(h) {
            Some(u) => rewritten(rewrite_outcome(h, "style"@, true, RuleView::PurgeCss(u))),
            None => Err(collect_error(h)),
        }
    } else if k == 12 {
        rewritten(rewrite_outcome(h, "style"@, true, RuleView::RemoveAttributes(p.remove_attributes)))
    } else if k == 13 {
        rewritten(rewrite_outcome(h, "style"@, true, RuleView::BaseUrl(base_url::trim_end_slashes(p.base_url.unwrap()))))
    } else if k == 14 {
        rewritten(rewrite_outcome(h, "style"@, true, RuleView::UrlParams(url_params::spec_query(p.url_params))))
    } else if k == 15 {
        let inject = meta_tags::meta_to_inject(lowercase(h));
        let body = if inject.len() == 0 {
            Ok(h)
        } else {
            rewritten(rewrite_outcome(h, "style"@, true, RuleView::PrependToHead(inject)))
        };
        match body {
            Ok(b) => Ok(if meta_tags::has_doctype(h) { b } else { meta_tags::DOCTYPE@ + b }),
            Err(e) => Err(e),
        }
    } else {
        if valid_utf8(minify::minified(h)) { Ok(decode_utf8(minify::minified(h))) } else { Err(ErrorView::Minify) }
    }
}

/// The steps from `k` on, applied in order to `h`: a step that is off
/// leaves the document; a step that fails stops the run with its error.
pub open spec fn run_from(p: PipelineView, k: int, h: Seq<char>) -> Result<Seq<char>, ErrorView>
    decreases STEP_COUNT - k,
{
    if k < 0 || k >= STEP_COUNT {
        Ok(h)
    } else if !step_enabled(p, k) {
        run_from(p, k + 1, h)
    } else {
        match step_result(p, k, h) {
            Ok(h2) => run_from(p, k + 1, h2),
            Err(e) => Err(e),
        }
    }
}

/// The steps from `j` up to, not including, `k`, applied in order to `h`, in
/// the manner of `run_from`.
pub open spec fn run_between(p: PipelineView, j: int, k: int, h: Seq<char>) -> Result<Seq<char>, ErrorView>
    decreases k - j,
{
    if j < 0 || j >= k {
        Ok(h)
    } else if !step_enabled(p, j) {
        run_between(p, j + 1, k, h)
    } else {
        match step_result(p, j, h) {
            Ok(h2) => run_between(p, j + 1, k, h2),
            Err(e) => Err(e),
        }
    }
}

// ───────────────────────────── construction ─────────────────────────────

impl Default for Pipeline {
    /// The email defaults (see `default_view`).
    fn default() -> (r: Self)
        ensures
            r@ == default_view(),
            r.tailwind_config() is None,
    {
        let r = Pipeline {
            tailwind: None,
            outlook_tags: true,
            safe_class_names: true,
            attribute_to_style: Vec::new(),
            inline_css: Some(InlineCssConfig::default()),
            resolve_props: true,
            resolve_calc: true,
            email_compat_css: true,
            style_to_attr: true,
            default_attributes: true,
            six_digit_hex: true,
            prevent_widows: true,
            class_cleanup: true,
            purge_css: false,
            base_url: None,
            url_params: Vec::new(),
            meta_tags: true,
            remove_attributes: remove_attributes::default_rules(),
            minify: false,
        };
        assert(r@.attribute_to_style =~= seq![]);
        assert(r@.url_params =~= seq![]);
        r
    }
}

impl Pipeline {
    /// A pipeline with the email defaults, without Tailwind generation.
    pub fn new() -> (r: Self)
        ensures
            r@ == default_view(),
            r.tailwind_config() is None,
    {
        Self::default()
    }

    /// A pipeline with the email defaults and Tailwind generation with the
    /// email configuration.
    pub fn with_tailwind() -> (r: Self)
        ensures
            r@ == (PipelineView { tailwind: true, ..default_view() }),
            r.tailwind_config() matches Some(c) && config_preflight_none(c)
                && config_colors(c) == insert_all(Map::empty(), email_palette())
                && config_screens(c).dom() == Set::<Seq<char>>::empty(),
    {
        let mut p = Self::default();
        p.tailwind = Some(tailwind::email_config());
        p
    }

    /// A pipeline with everything off.
    pub fn minimal() -> (r: Self)
        ensures
            r@ == minimal_view(),
            r.tailwind_config() is None,
    {
        let r = Pipeline {
            tailwind: None,
            outlook_tags: false,
            safe_class_names: false,
            attribute_to_style: Vec::new(),
            inline_css: None,
            resolve_props: false,
            resolve_calc: false,
            email_compat_css: false,
            style_to_attr: false,
            default_attributes: false,
            six_digit_hex: false,
            prevent_widows: false,
            class_cleanup: false,
            purge_css: false,
            base_url: None,
            url_params: Vec::new(),
            meta_tags: false,
            remove_attributes: Vec::new(),
            minify: false,
        };
        assert(r@.attribute_to_style =~= seq![]);
        assert(r@.url_params =~= seq![]);
        assert(r@.remove_attributes =~= seq![]);
        r
    }

    pub fn tailwind(self, config: encre_css::Config) -> (r: Self)
        ensures
            r@ == (PipelineView { tailwind: true, ..self@ }),
            r.tailwind_config() == Some(config),
    {
        let mut p = self;
        p.tailwind = Some(config);
        p
    }

    pub fn no_tailwind(self) -> (r: Self)
        ensures
            r@ == (PipelineView { tailwind: false, ..self@ }),
            r.tailwind_config() is None,
    {
        let mut p = self;
        p.tailwind = None;
        p
    }

    pub fn outlook_tags(self, enabled: bool) -> (r: Self)
        ensures
            r@ == (PipelineView { outlook_tags: enabled, ..self@ }),
            r.tailwind_config() == self.tailwind_config(),
    {
        let mut p = self;
        p.outlook_tags = enabled;
        p
    }

    pub fn safe_class_names(self, enabled: bool) -> (r: Self)
        ensures
            r@ == (PipelineView { safe_class_names: enabled, ..self@ }),
            r.tailwind_config() == self.tailwind_config(),
    {
        let mut p = self;
        p.safe_class_names = enabled;
        p
    }

    /// Copies the named HTML attributes into the inline `style`; an empty
    /// list turns the step off.
    pub fn attribute_to_style(self, attributes: Vec<String>) -> (r: Self)
        ensures
            r@ == (PipelineView { attribute_to_style: class_cleanup::strings_view(attributes@), ..self@ }),
            r.tailwind_config() == self.tailwind_config(),
    {
        let mut p = self;
        p.attribute_to_style = attributes;
        p
    }

    pub fn inline_css(self, config: InlineCssConfig) -> (r: Self)
        ensures
            r@ == (PipelineView { inline_css: Some(config@), ..self@ }),
            r.tailwind_config() == self.tailwind_config(),
    {
        let mut p = self;
        p.inline_css = Some(config);
        p
    }

    pub fn no_inline_css(self) -> (r: Self)
        ensures
            r@ == (PipelineView { inline_css: None, ..self@ }),
            r.tailwind_config() == self.tailwind_config(),
    {
        let mut p = self;
        p.inline_css = None;
        p
    }

    pub fn resolve_props(self, enabled: bool) -> (r: Self)
        ensures
            r@ == (PipelineView { resolve_props: enabled, ..self@ }),
            r.tailwind_config() == self.tailwind_config(),
    {
        let mut p = self;
        p.resolve_props = enabled;
        p
    }

    pub fn resolve_calc(self, enabled: bool) -> (r: Self)
        ensures
            r@ == (PipelineView { resolve_calc: enabled, ..self@ }),
            r.tailwind_config() == self.tailwind_config(),
    {
        let mut p = self;
        p.resolve_calc = enabled;
        p
    }

    pub fn email_compat_css(self, enabled: bool) -> (r: Self)
        ensures
            r@ == (PipelineView { email_compat_css: enabled, ..self@ }),
            r.tailwind_config() == self.tailwind_config(),
    {
        let mut p = self;
        p.email_compat_css = enabled;
        p
    }

    pub fn style_to_attr(self, enabled: bool) -> (r: Self)
        ensures
            r@ == (PipelineView { style_to_attr: enabled, ..self@ }),
            r.tailwind_config() == self.tailwind_config(),
    {
        let mut p = self;
        p.style_to_attr = enabled;
        p
    }

    pub fn default_attributes(self, enabled: bool) -> (r: Self)
        ensures
            r@ == (PipelineView { default_attributes: enabled, ..self@ }),
            r.tailwind_config() == self.tailwind_config(),
    {
        let mut p = self;
        p.default_attributes = enabled;
        p
    }

    pub fn six_digit_hex(self, enabled: bool) -> (r: Self)
        ensures
            r@ == (PipelineView { six_digit_hex: enabled, ..self@ }),
            r.tailwind_config() == self.tailwind_config(),
    {
        let mut p = self;
        p.six_digit_hex = enabled;
        p
    }

    pub fn prevent_widows(self, enabled: bool) -> (r: Self)
        ensures
            r@ == (PipelineView { prevent_widows: enabled, ..self@ }),
            r.tailwind_config() == self.tailwind_config(),
    {
        let mut p = self;
        p.prevent_widows = enabled;
        p
    }

    pub fn class_cleanup(self, enabled: bool) -> (r: Self)
        ensures
            r@ == (PipelineView { class_cleanup: enabled, ..self@ }),
            r.tailwind_config() == self.tailwind_config(),
    {
        let mut p = self;
        p.class_cleanup = enabled;
        p
    }

    /// Purges unused CSS rules from `<style>` blocks; off by default, since
    /// the Tailwind generator only produces used CSS.
    pub fn purge_css(self, enabled: bool) -> (r: Self)
        ensures
            r@ == (PipelineView { purge_css: enabled, ..self@ }),
            r.tailwind_config() == self.tailwind_config(),
    {
        let mut p = self;
        p.purge_css = enabled;
        p
    }

    pub fn base_url(self, url: &str) -> (r: Self)
        ensures
            r@ == (PipelineView { base_url: Some(url@), ..self@ }),
            r.tailwind_config() == self.tailwind_config(),
    {
        let mut p = self;
        p.base_url = Some(url.to_string());
        p
    }

    pub fn url_params(self, params: Vec<(String, String)>) -> (r: Self)
        ensures
            r@ == (PipelineView { url_params: url_params::params_view(params@), ..self@ }),
            r.tailwind_config() == self.tailwind_config(),
    {
        let mut p = self;
        p.url_params = params;
        p
    }

    pub fn meta_tags(self, enabled: bool) -> (r: Self)
        ensures
            r@ == (PipelineView { meta_tags: enabled, ..self@ }),
            r.tailwind_config() == self.tailwind_config(),
    {
        let mut p = self;
        p.meta_tags = enabled;
        p
    }

    /// Replaces the attribute removal rules (by default, blank `style` and
    /// `class` attributes are removed).
    pub fn remove_attributes(self, rules: Vec<RemoveRule>) -> (r: Self)
        ensures
            r@ == (PipelineView { remove_attributes: remove_attributes::rules_view(rules@), ..self@ }),
            r.tailwind_config() == self.tailwind_config(),
    {
        let mut p = self;
        p.remove_attributes = rules;
        p
    }

    /// Adds an attribute removal rule after the existing ones.
    pub fn add_remove_rule(self, rule: RemoveRule) -> (r: Self)
        ensures
            r@ == (PipelineView { remove_attributes: self@.remove_attributes.push(rule@), ..self@ }),
            r.tailwind_config() == self.tailwind_config(),
    {
        let mut p = self;
        let ghost before = remove_attributes::rules_view(p.remove_attributes@);
        p.remove_attributes.push(rule);
        assert(remove_attributes::rules_view(p.remove_attributes@) =~= before.push(rule@));
        p
    }

    pub fn minify(self, enabled: bool) -> (r: Self)
        ensures
            r@ == (PipelineView { minify: enabled, ..self@ }),
            r.tailwind_config() == self.tailwind_config(),
    {
        let mut p = self;
        p.minify = enabled;
        p
    }
}

// ───────────────────────────── running ─────────────────────────────

impl Pipeline {
    /// The names of the attributes to copy into `style`, borrowed.
    fn attribute_names(&self) -> (r: Vec<&str>)
        ensures attribute_to_style::names_view(r@) == self@.attribute_to_style,
    {
        let mut names: Vec<&str> = Vec::new();
        for k in 0..self.attribute_to_style.len()
            invariant attribute_to_style::names_view(names@) == class_cleanup::strings_view(self.attribute_to_style@).take(k as int),
        {
            let ghost before = attribute_to_style::names_view(names@);
            names.push(self.attribute_to_style[k].as_str());
            assert(class_cleanup::strings_view(self.attribute_to_style@).take(k + 1)
                == class_cleanup::strings_view(self.attribute_to_style@).take(k as int).push(self.attribute_to_style@[k as int]@));
            assert(attribute_to_style::names_view(names@) =~= before.push(self.attribute_to_style@[k as int]@));
        }
        assert(class_cleanup::strings_view(self.attribute_to_style@).take(self.attribute_to_style@.len() as int)
            == class_cleanup::strings_view(self.attribute_to_style@));
        names
    }

    /// Runs step `k` on `h` when it is on; passes `h` through when it is off.
    #[verifier::rlimit(40)]
    fn run_step(&self, k: usize, h: String) -> (r: Result<String, Error>)
        requires k < STEP_COUNT,
        ensures
            r matches Ok(s) ==> if step_enabled(self@, k as int) {
                (step_result(self@, k as int, h@) matches Ok(x) && x == s@)
            } else {
                s@ == h@
            },
            r matches Err(e) ==> step_enabled(self@, k as int) && (step_result(self@, k as int, h@) matches Err(x) && x == e@),
    {
        proof { reveal_strlit("style"); }
        let html = h.as_str();
        if k == 0 {
            if !self.outlook_tags { return Ok(h); }
            outlook_tags::process(html)
        } else if k == 1 {
            if !self.safe_class_names { return Ok(h); }
            safe_class_names::process(html)
        } else if k == 2 {
            if self.attribute_to_style.len() == 0 { return Ok(h); }
            let names = self.attribute_names();
            attribute_to_style::process(html, names.as_slice())
        } else if k == 3 {
            match &self.inline_css {
                Some(config) => inline_css::process(html, config),
                None => Ok(h),
            }
        } else if k == 4 {
            if !self.resolve_props { return Ok(h); }
            resolve_props::process(html)
        } else if k == 5 {
            if !self.resolve_calc { return Ok(h); }
            resolve_calc::process(html)
        } else if k == 6 {
            if !self.email_compat_css { return Ok(h); }
            email_compat_css::process(html)
        } else if k == 7 {
            if !self.style_to_attr { return Ok(h); }
            style_to_attr::process(html)
        } else if k == 8 {
            if !(self.default_attributes || self.six_digit_hex) { return Ok(h); }
            html_transforms::process(html, self.default_attributes, self.six_digit_hex)
        } else if k == 9 {
            if !self.prevent_widows { return Ok(h); }
            widows::process(html)
        } else if k == 10 {
            if !self.class_cleanup { return Ok(h); }
            class_cleanup::process(html)
        } else if k == 11 {
            if !self.purge_css { return Ok(h); }
            purge_css::process(html)
        } else if k == 12 {
            if self.remove_attributes.len() == 0 { return Ok(h); }
            remove_attributes::process(html, self.remove_attributes.as_slice())
        } else if k == 13 {
            match &self.base_url {
                Some(base) => base_url::process(html, base.as_str()),
                None => Ok(h),
            }
        } else if k == 14 {
            if self.url_params.len() == 0 { return Ok(h); }
            url_params::process(html, self.url_params.as_slice())
        } else if k == 15 {
            if !self.meta_tags { return Ok(h); }
            meta_tags::process(html)
        } else {
            if !self.minify { return Ok(h); }
            minify::process(html)
        }
    }

    /// Runs the steps after Tailwind generation (see `run_from`).
    pub fn run_steps(&self, start: &str) -> (r: Result<String, Error>)
        ensures
            r matches Ok(s) ==> (run_from(self@, 0, start@) matches Ok(x) && x == s@),
            r matches Err(e) ==> (run_from(self@, 0, start@) matches Err(x) && x == e@),
    {
        let ghost s0 = start@;
        let ghost target = run_from(self@, 0, s0);
        let mut output = start.to_string();
        let mut k: usize = 0;
        while k < STEP_COUNT
            invariant
                k <= STEP_COUNT,
                s0 == start@,
                target == run_from(self@, 0, s0),
                run_from(self@, k as int, output@) == target,
            decreases STEP_COUNT - k,
        {
            let ghost h = output@;
            match self.run_step(k, output) {
                Ok(s) => {
                    output = s;
                },
                Err(e) => {
                    assert(run_from(self@, k as int, h) matches Err(x) && x == e@);
                    return Err(e);
                },
            }
            k = k + 1;
        }
        Ok(output)
    }

    /// Processes a document through the configured steps (see
    /// `process_outcome`).
    pub fn process(&self, html: &str) -> (r: Result<PipelineResult, Error>)
        ensures
            r matches Ok(res) ==> (process_outcome(self.tailwind_config(), self@, html@) matches Ok(x) && x == res.html@),
            r matches Err(e) ==> (process_outcome(self.tailwind_config(), self@, html@) matches Err(x) && x == e@),
    {
        let start = match &self.tailwind {
            Some(config) => match tailwind::process(html, config) {
                Ok(s) => s,
                Err(e) => return Err(e),
            },
            None => html.to_string(),
        };
        match self.run_steps(start.as_str()) {
            Ok(s) => Ok(PipelineResult { html: s }),
            Err(e) => Err(e),
        }
    }

}


/// What processing makes of a document: with a Tailwind configuration, the
/// steps run on the document with the CSS that encre-css generates for it
/// injected (`spec_with_css`), or the injection's error; without, the steps
/// run on the document itself.
pub open spec fn process_outcome(tw: Option<encre_css::Config>, p: PipelineView, html: Seq<char>) -> Result<Seq<char>, ErrorView> {
    match tw {
        None => run_from(p, 0, html),
        Some(c) => {
            let css = tailwind::generated_css(html, c);
            match tailwind::spec_with_css(html, css) {
                Some(t) => run_from(p, 0, t),
                None => Err(ErrorView::HtmlRewrite(
                    rewrite_outcome(html, "style"@, false, RuleView::InjectStyle(tailwind::style_tag(css)))->Err_0)),
            }
        },
    }
}

// ───────────────────────────── laws ─────────────────────────────

/// With no step on from `k` on, the run from `k` hands the document back
/// unchanged.
pub proof fn lemma_run_all_off(p: PipelineView, k: int, h: Seq<char>)
    requires
        forall|j: int| k <= j < STEP_COUNT ==> !#[trigger] step_enabled(p, j),
    ensures
        run_from(p, k, h) matches Ok(x) && x == h,
    decreases STEP_COUNT - k,
{
    if 0 <= k < STEP_COUNT {
        lemma_run_all_off(p, k + 1, h);
    }
}

/// A pipeline with every step off hands every document back unchanged.
pub proof fn lemma_minimal_is_identity(h: Seq<char>)
    ensures
        run_from(minimal_view(), 0, h) matches Ok(x) && x == h,
{
    assert forall|j: int| 0 <= j < STEP_COUNT implies !#[trigger] step_enabled(minimal_view(), j) by {}
    lemma_run_all_off(minimal_view(), 0, h);
}

/// Turning a step off removes exactly that step: the run skips it and goes on
/// with the document as it was.
pub proof fn lemma_disabled_step_skipped(p: PipelineView, k: int, h: Seq<char>)
    requires
        0 <= k < STEP_COUNT,
        !step_enabled(p, k),
    ensures
        run_from(p, k, h) == run_from(p, k + 1, h),
{
}

/// The steps run in their fixed order: running from `j` is running the steps
/// from `j` up to `k`, then, on success, the steps from `k` on with what they
/// made; an error among the first steps is the run's error, and no later step
/// is run.
pub proof fn lemma_run_splits(p: PipelineView, j: int, k: int, h: Seq<char>)
    requires
        0 <= j <= k <= STEP_COUNT,
    ensures
        run_from(p, j, h) == match run_between(p, j, k, h) {
            Ok(h2) => run_from(p, k, h2),
            Err(e) => Err(e),
        },
    decreases k - j,
{
    if j < k {
        if !step_enabled(p, j) {
            lemma_run_splits(p, j + 1, k, h);
        } else {
            match step_result(p, j, h) {
                Ok(h2) => lemma_run_splits(p, j + 1, k, h2),
                Err(e) => {},
            }
        }
    }
}

/// Every step, in order: the whole run is the steps from the first to the
/// last threaded through the document.
pub proof fn lemma_run_is_all_steps(p: PipelineView, h: Seq<char>)
    ensures
        run_from(p, 0, h) == run_between(p, 0, STEP_COUNT as int, h),
{
    lemma_run_splits(p, 0, STEP_COUNT as int, h);
    match run_between(p, 0, STEP_COUNT as int, h) {
        Ok(h2) => {},
        Err(e) => {},
    }
}

/// The run stops at the first step that fails: when the steps before `k`
/// make `hk` of the document and step `k`, which is on, fails on `hk`, the
/// run fails with that step's error.
pub proof fn lemma_first_error_stops(p: PipelineView, k: int, h: Seq<char>, hk: Seq<char>, e: ErrorView)
    requires
        0 <= k < STEP_COUNT,
        run_between(p, 0, k, h) == Ok::<Seq<char>, ErrorView>(hk),
        step_enabled(p, k),
        step_result(p, k, hk) == Err::<Seq<char>, ErrorView>(e),
    ensures
        run_from(p, 0, h) == Err::<Seq<char>, ErrorView>(e),
{
    lemma_run_splits(p, 0, k, h);
}

} // verus!
