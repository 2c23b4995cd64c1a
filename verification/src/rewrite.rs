//! One pass of the HTML rewriter with one of the library's rules.
use vstd::prelude::*;
use std::borrow::Cow;
use std::cell::RefCell;
use lol_html::html_content::{Element, TextChunk};
use lol_html::errors::AttributeNameError;
use lol_html::{ElementContentHandlers, RewriteStrSettings, Selector};
use crate::html::{
    element_attrs, element_tag, get_attribute, tag_name, chunk_string, HtmlElement, append_html, prepend_html,
    chunk_text, chunk_replacement, element_prepended, element_appended, element_can_have_content,
};
use crate::transformers::{
    attribute_to_style, base_url, class_cleanup, email_compat_css, html_transforms, purge_css, remove_attributes,
    resolve_calc, resolve_props, safe_class_names, style_to_attr, url_params, widows,
};
use crate::text::{chars_of, eq_str};

verus! {

broadcast use vstd::string::group_string_axioms;

/// What a rewriting pass does to the elements and text chunks it visits.
pub enum HtmlRule<'a> {
    /// Change nothing; record every element and every matched text chunk.
    Collect,
    /// Convert inline styles for email clients (`email_compat_css`).
    EmailCompat,
    /// Drop unused rules from `<style>` blocks (`purge_css`).
    PurgeCss(purge_css::Usage),
    /// Evaluate `calc()` in inline styles and `<style>` blocks (`resolve_calc`).
    ResolveCalc,
    /// Replace `var()` references by the given declarations (`resolve_props`).
    ResolveProps(Vec<(String, String)>),
    /// Keep only the listed classes in `class` attributes (`class_cleanup`).
    ClassCleanup(Vec<String>),
    /// Copy the named attributes into `style` (`attribute_to_style`).
    AttributeToStyle(Vec<String>),
    /// Remove attributes by the rules (`remove_attributes`).
    RemoveAttributes(&'a [remove_attributes::RemoveRule]),
    /// Copy inline style values into attributes (`style_to_attr`).
    StyleToAttr,
    /// Table and image defaults, six-digit hex colours (`html_transforms`).
    HtmlTransforms(bool, bool),
    /// Make class names and their selectors safe (`safe_class_names`).
    SafeClassNames,
    /// Append the query string to trackable links (`url_params`).
    UrlParams(String),
    /// Tie the last two words of marked texts together (`widows`).
    Widows,
    /// Put the markup at the start of every `<head>` (`meta_tags`).
    PrependToHead(String),
    /// Put the markup at the end of the first `<head>` (`tailwind`).
    InjectStyle(String),
    /// Resolve relative URLs against the base (`base_url`).
    BaseUrl(String),
}

/// A rule as data.
pub enum RuleView {
    Collect,
    EmailCompat,
    PurgeCss(purge_css::UsageView),
    ResolveCalc,
    ResolveProps(Seq<(Seq<char>, Seq<char>)>),
    ClassCleanup(Seq<Seq<char>>),
    AttributeToStyle(Seq<Seq<char>>),
    RemoveAttributes(Seq<remove_attributes::RuleSpec>),
    StyleToAttr,
    HtmlTransforms(bool, bool),
    SafeClassNames,
    UrlParams(Seq<char>),
    Widows,
    PrependToHead(Seq<char>),
    InjectStyle(Seq<char>),
    BaseUrl(Seq<char>),
}

impl<'a> View for HtmlRule<'a> {
    type V = RuleView;

    open spec fn view(&self) -> RuleView {
        match self {
            HtmlRule::Collect => RuleView::Collect,
            HtmlRule::EmailCompat => RuleView::EmailCompat,
            HtmlRule::PurgeCss(u) => RuleView::PurgeCss(u@),
            HtmlRule::ResolveCalc => RuleView::ResolveCalc,
            HtmlRule::ResolveProps(v) => RuleView::ResolveProps(resolve_props::vars_view(v@)),
            HtmlRule::ClassCleanup(l) => RuleView::ClassCleanup(class_cleanup::strings_view(l@)),
            HtmlRule::AttributeToStyle(n) => RuleView::AttributeToStyle(class_cleanup::strings_view(n@)),
            HtmlRule::RemoveAttributes(r) => RuleView::RemoveAttributes(remove_attributes::rules_view(r@)),
            HtmlRule::StyleToAttr => RuleView::StyleToAttr,
            HtmlRule::HtmlTransforms(a, b) => RuleView::HtmlTransforms(*a, *b),
            HtmlRule::SafeClassNames => RuleView::SafeClassNames,
            HtmlRule::UrlParams(q) => RuleView::UrlParams(q@),
            HtmlRule::Widows => RuleView::Widows,
            HtmlRule::PrependToHead(c) => RuleView::PrependToHead(c@),
            HtmlRule::InjectStyle(c) => RuleView::InjectStyle(c@),
            HtmlRule::BaseUrl(b) => RuleView::BaseUrl(b@),
        }
    }
}

/// An element as a collecting pass records it.
pub struct ElementRecord {
    /// Lowercased tag name.
    pub tag: String,
    /// The `class` attribute, if present.
    pub class: Option<String>,
    /// The `id` attribute, if present.
    pub id: Option<String>,
}

/// What a pass recorded.
pub struct RewriteLog {
    /// Every matched text chunk, in document order (collecting passes only).
    pub texts: Vec<String>,
    /// Every element, in document order (collecting passes only).
    pub elements: Vec<ElementRecord>,
    /// Whether a `<head>` element was seen (head-injecting passes only).
    pub head_seen: bool,
}

pub struct LogView {
    pub texts: Seq<Seq<char>>,
    pub elements: Seq<(Seq<char>, Option<Seq<char>>, Option<Seq<char>>)>,
    pub head_seen: bool,
}

pub open spec fn opt_view(o: Option<String>) -> Option<Seq<char>> {
    match o {
        Some(s) => Some(s@),
        None => None,
    }
}

impl View for RewriteLog {
    type V = LogView;

    open spec fn view(&self) -> LogView {
        LogView {
            texts: self.texts@.map_values(|t: String| t@),
            elements: self.elements@.map_values(|e: ElementRecord| (e.tag@, opt_view(e.class), opt_view(e.id))),
            head_seen: self.head_seen,
        }
    }
}

impl RewriteLog {
    pub open spec fn empty_view() -> LogView {
        LogView { texts: seq![], elements: seq![], head_seen: false }
    }

    pub fn new() -> (r: RewriteLog)
        ensures r@ == RewriteLog::empty_view(),
    {
        let r = RewriteLog { texts: Vec::new(), elements: Vec::new(), head_seen: false };
        assert(r@.texts =~= seq![]);
        assert(r@.elements =~= seq![]);
        r
    }
}

/// The outcome of rewriting `html` with `rule`: the output document and the
/// log, or the error's message when the rewriter fails. The outcome is a
/// function of the document, the text selector, the ESI setting and the rule.
pub uninterp spec fn rewrite_outcome(html: Seq<char>, text_selector: Seq<char>, esi: bool, rule: RuleView) -> Result<(Seq<char>, LogView), Seq<char>>;

/// The text selectors the library uses.
pub open spec fn known_text_selector(s: Seq<char>) -> bool {
    s == "style"@ || s == "[prevent-widows], [no-widows]"@
}

/// `lol_html::rewrite_str` over the whole of `html`, in strict mode, with ESI
/// tags enabled or not: every element goes to `on_element`, and every text
/// chunk inside the elements matched by `text_selector` to `on_text`. The
/// contract names the outcome (`rewrite_outcome`), the error's message
/// included, as a function of its arguments. It takes allocation to succeed,
/// as Verus does everywhere: `rewrite_str` turns a failed reservation of its
/// output buffer into a memory-limit error, which the name does not cover.
#[verifier::external_body]
pub(crate) fn rewrite(html: &str, text_selector: &str, esi: bool, rule: &HtmlRule, log: &mut RewriteLog) -> (r: Result<String, String>)
    requires
        known_text_selector(text_selector@),
        old(log)@ == RewriteLog::empty_view(),
    ensures
        r is Ok <==> rewrite_outcome(html@, text_selector@, esi, rule@) is Ok,
        r matches Ok(s) ==> (rewrite_outcome(html@, text_selector@, esi, rule@) matches Ok((o, l)) && o == s@ && l == final(log)@),
        r matches Err(m) ==> (rewrite_outcome(html@, text_selector@, esi, rule@) matches Err(e) && e == m@),
{
    let cell = RefCell::new(log);
    let settings = RewriteStrSettings::new().with_enable_esi_tags(esi)
        .append_element_content_handler((Cow::Owned("*".parse::<Selector>().unwrap()), ElementContentHandlers::default()
            .element(|el: &mut Element| Ok(on_element(rule, &mut cell.borrow_mut(), &mut HtmlElement { inner: el })?))))
        .append_element_content_handler((Cow::Owned(text_selector.parse::<Selector>().unwrap()), ElementContentHandlers::default()
            .text(|t: &mut TextChunk| Ok(on_text(rule, &mut cell.borrow_mut(), t)))));
    lol_html::rewrite_str(html, settings).map_err(|e| e.to_string())
}

/// What `rule` does to an element's attributes.
pub open spec fn rule_element_attrs(rule: RuleView, tag: Seq<char>, attrs: Seq<(Seq<char>, Seq<char>)>) -> Seq<(Seq<char>, Seq<char>)> {
    match rule {
        RuleView::EmailCompat => email_compat_css::spec_element(attrs),
        RuleView::ResolveCalc => resolve_calc::spec_element(attrs),
        RuleView::ResolveProps(v) => resolve_props::spec_element(v, attrs),
        RuleView::ClassCleanup(l) => class_cleanup::spec_element(l, attrs),
        RuleView::AttributeToStyle(n) => attribute_to_style::spec_element(n, tag, attrs),
        RuleView::RemoveAttributes(r) => remove_attributes::apply_rules(r, attrs),
        RuleView::StyleToAttr => style_to_attr::spec_element(tag, attrs),
        RuleView::HtmlTransforms(a, b) => html_transforms::spec_element(a, b, tag, attrs),
        RuleView::SafeClassNames => safe_class_names::spec_element(attrs),
        RuleView::UrlParams(q) => url_params::spec_element(q, tag, attrs),
        RuleView::Widows => widows::spec_element(attrs),
        RuleView::BaseUrl(b) => base_url::spec_element(b, tag, attrs),
        _ => attrs,
    }
}

/// The markup `rule` puts right after an element's start tag.
pub open spec fn rule_prepend(rule: RuleView, tag: Seq<char>) -> Seq<char> {
    match rule {
        RuleView::PrependToHead(c) => if tag == "head"@ { c } else { seq![] },
        _ => seq![],
    }
}

/// The markup `rule` puts right before an element's end tag: only the first
/// `<head>` of an injecting pass gets it.
pub open spec fn rule_append(rule: RuleView, log: LogView, tag: Seq<char>) -> Seq<char> {
    match rule {
        RuleView::InjectStyle(c) => if tag == "head"@ && !log.head_seen { c } else { seq![] },
        _ => seq![],
    }
}

/// What `rule` records of an element.
pub open spec fn rule_element_log(rule: RuleView, log: LogView, tag: Seq<char>, attrs: Seq<(Seq<char>, Seq<char>)>) -> LogView {
    match rule {
        RuleView::Collect => LogView {
            elements: log.elements.push((tag, crate::html::attr_get(attrs, "class"@), crate::html::attr_get(attrs, "id"@))),
            ..log
        },
        RuleView::InjectStyle(_) => if tag == "head"@ { LogView { head_seen: true, ..log } } else { log },
        _ => log,
    }
}

/// Handles one element.
pub fn on_element(rule: &HtmlRule, log: &mut RewriteLog, el: &mut HtmlElement) -> (r: Result<(), AttributeNameError>)
    ensures
        r is Ok,
        element_tag(*final(el)) == element_tag(*old(el)),
        element_can_have_content(*final(el)) == element_can_have_content(*old(el)),
        element_attrs(*final(el)) == rule_element_attrs(rule@, element_tag(*old(el)), element_attrs(*old(el))),
        element_prepended(*final(el)) == if element_can_have_content(*old(el)) {
            rule_prepend(rule@, element_tag(*old(el))) + element_prepended(*old(el))
        } else {
            element_prepended(*old(el))
        },
        element_appended(*final(el)) == if element_can_have_content(*old(el)) {
            element_appended(*old(el)) + rule_append(rule@, old(log)@, element_tag(*old(el)))
        } else {
            element_appended(*old(el))
        },
        final(log)@ == rule_element_log(rule@, old(log)@, element_tag(*old(el)), element_attrs(*old(el))),
{
    proof { reveal_strlit("head"); }
    match rule {
        HtmlRule::Collect => {
            let tag = tag_name(el);
            let class = get_attribute(el, "class");
            let id = get_attribute(el, "id");
            let ghost old_log = log@;
            log.elements.push(ElementRecord { tag, class, id });
            assert(log@.elements =~= old_log.elements.push((element_tag(*el), crate::html::attr_get(element_attrs(*el), "class"@), crate::html::attr_get(element_attrs(*el), "id"@))));
            assert(log@.texts =~= old_log.texts);
            Ok(())
        },
        HtmlRule::PurgeCss(_) => Ok(()),
        HtmlRule::EmailCompat => email_compat_css::on_element(el),
        HtmlRule::ResolveCalc => resolve_calc::on_element(el),
        HtmlRule::ResolveProps(v) => resolve_props::on_element(v, el),
        HtmlRule::ClassCleanup(l) => class_cleanup::on_element(l, el),
        HtmlRule::AttributeToStyle(n) => attribute_to_style::on_element(n, el),
        HtmlRule::RemoveAttributes(r) => remove_attributes::on_element(r, el),
        HtmlRule::StyleToAttr => style_to_attr::on_element(el),
        HtmlRule::HtmlTransforms(a, b) => html_transforms::on_element(*a, *b, el),
        HtmlRule::SafeClassNames => safe_class_names::on_element(el),
        HtmlRule::UrlParams(q) => url_params::on_element(q.as_str(), el),
        HtmlRule::Widows => widows::on_element(el),
        HtmlRule::BaseUrl(b) => base_url::on_element(b.as_str(), el),
        HtmlRule::PrependToHead(c) => {
            let tag = chars_of(tag_name(el).as_str());
            if eq_str(&tag, "head") {
                prepend_html(el, c.as_str());
            }
            Ok(())
        },
        HtmlRule::InjectStyle(c) => {
            let tag = chars_of(tag_name(el).as_str());
            if eq_str(&tag, "head") {
                if !log.head_seen {
                    append_html(el, c.as_str());
                }
                log.head_seen = true;
            }
            Ok(())
        },
    }
}

/// What `rule` does to a text chunk.
pub open spec fn rule_text(rule: RuleView, text: Seq<char>) -> Option<Seq<char>> {
    match rule {
        RuleView::PurgeCss(u) => purge_css::spec_text(u, text),
        RuleView::ResolveCalc => resolve_calc::spec_text(text),
        RuleView::ResolveProps(v) => resolve_props::spec_text(v, text),
        RuleView::SafeClassNames => safe_class_names::spec_text(text),
        RuleView::Widows => widows::spec_text(text),
        RuleView::BaseUrl(b) => base_url::spec_text(b, text),
        _ => None,
    }
}

/// What `rule` records of a text chunk.
pub open spec fn rule_text_log(rule: RuleView, log: LogView, text: Seq<char>) -> LogView {
    match rule {
        RuleView::Collect => LogView { texts: log.texts.push(text), ..log },
        _ => log,
    }
}

/// Handles one text chunk.
pub fn on_text(rule: &HtmlRule, log: &mut RewriteLog, t: &mut TextChunk)
    ensures
        chunk_text(*final(t)) == chunk_text(*old(t)),
        rule_text(rule@, chunk_text(*old(t))) matches Some(x) ==> chunk_replacement(*final(t)) == Some(x),
        rule_text(rule@, chunk_text(*old(t))) is None ==> chunk_replacement(*final(t)) == chunk_replacement(*old(t)),
        final(log)@ == rule_text_log(rule@, old(log)@, chunk_text(*old(t))),
{
    match rule {
        HtmlRule::Collect => {
            let s = chunk_string(t);
            let ghost old_log = log@;
            log.texts.push(s);
            assert(log@.texts =~= old_log.texts.push(chunk_text(*t)));
            assert(log@.elements =~= old_log.elements);
        },
        HtmlRule::PurgeCss(u) => purge_css::on_text(u, t),
        HtmlRule::ResolveCalc => resolve_calc::on_text(t),
        HtmlRule::ResolveProps(v) => resolve_props::on_text(v, t),
        HtmlRule::SafeClassNames => safe_class_names::on_text(t),
        HtmlRule::Widows => widows::on_text(t),
        HtmlRule::BaseUrl(b) => base_url::on_text(b.as_str(), t),
        _ => {},
    }
}

} // verus!
