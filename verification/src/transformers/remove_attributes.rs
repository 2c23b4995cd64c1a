//! Configurable removal of attributes.
//!
//! Each rule names an attribute and says when it goes: when its value is
//! blank, always, when the value equals a given string, or when a regular
//! expression matches it. The rules are applied to every element in order.
use vstd::prelude::*;
use crate::error::Error;
use crate::html::{attr_get, attr_remove, element_attrs, element_tag, get_attribute, remove_attribute, HtmlElement};
use crate::html::{lemma_attr_remove_never_adds, lemma_attr_remove_then_get};
use crate::rewrite::{rewrite, rewrite_outcome, HtmlRule, RewriteLog, RuleView};
use crate::text::{chars_of, concat2, same, trim, trimmed};
use lol_html::errors::AttributeNameError;

verus! {

broadcast use vstd::string::group_string_axioms;

// ───────────────────────────── patterns ─────────────────────────────

#[verifier::external_type_specification]
#[verifier::external_body]
pub struct ExRegex(regex::Regex);

/// How `regex::Regex::new` fails on a pattern: none when the pattern
/// compiles, else the error's message.
pub uninterp spec fn regex_compile_error(pattern: Seq<char>) -> Option<Seq<char>>;

/// Whether the regular expression compiled from `pattern` matches anywhere in `haystack`.
pub uninterp spec fn regex_matches(pattern: Seq<char>, haystack: Seq<char>) -> bool;

/// A compiled regular expression with the pattern it was compiled from.
/// Only `compile` makes one, so `compiled` is always `source` compiled.
#[derive(Debug)]
pub struct Pattern {
    source: String,
    compiled: regex::Regex,
}

impl View for Pattern {
    type V = Seq<char>;

    /// The pattern's text.
    closed spec fn view(&self) -> Seq<char> {
        self.source@
    }
}

/// `regex::Regex::new`: compiles `pattern`, or gives the error's message.
/// The outcome is named (`regex_compile_error`), a function of the pattern.
#[verifier::external_body]
fn compile(pattern: &str) -> (r: Result<Pattern, String>)
    ensures
        r is Ok <==> regex_compile_error(pattern@) is None,
        r matches Ok(p) ==> p@ == pattern@,
        r matches Err(m) ==> regex_compile_error(pattern@) == Some(m@),
{
    match regex::Regex::new(pattern) {
        Ok(compiled) => Ok(Pattern { source: pattern.to_string(), compiled }),
        Err(e) => Err(e.to_string()),
    }
}

/// `Regex::clone`: a second handle on the same compiled expression. Nothing
/// is stated of it: a `Regex` is opaque here, and what a `Pattern` means is
/// its source text, which is copied beside it.
#[verifier::external_body]
fn clone_regex(r: &regex::Regex) -> regex::Regex {
    r.clone()
}

impl Clone for Pattern {
    fn clone(&self) -> (r: Self)
        ensures r@ == self@,
    {
        Pattern { source: self.source.clone(), compiled: clone_regex(&self.compiled) }
    }
}

/// `regex::Regex::is_match`: whether the pattern matches anywhere in `haystack`.
#[verifier::external_body]
fn is_match(p: &Pattern, haystack: &str) -> (r: bool)
    ensures r == regex_matches(p@, haystack@),
{
    p.compiled.is_match(haystack)
}

// ───────────────────────────── rules ─────────────────────────────

/// A rule for removing an attribute.
#[derive(Debug, Clone)]
pub enum RemoveRule {
    /// Remove the attribute when its value is empty after trimming.
    Empty(String),
    /// Remove the attribute whatever its value.
    Always(String),
    /// Remove the attribute when its value equals the given one.
    ExactValue { name: String, value: String },
    /// Remove the attribute when the pattern matches its value.
    Regex { name: String, pattern: Pattern },
}

pub enum RuleSpec {
    Empty(Seq<char>),
    Always(Seq<char>),
    ExactValue(Seq<char>, Seq<char>),
    Regex(Seq<char>, Seq<char>),
}

impl View for RemoveRule {
    type V = RuleSpec;

    open spec fn view(&self) -> RuleSpec {
        match self {
            RemoveRule::Empty(n) => RuleSpec::Empty(n@),
            RemoveRule::Always(n) => RuleSpec::Always(n@),
            RemoveRule::ExactValue { name, value } => RuleSpec::ExactValue(name@, value@),
            RemoveRule::Regex { name, pattern } => RuleSpec::Regex(name@, pattern@),
        }
    }
}

pub open spec fn rule_name(r: RuleSpec) -> Seq<char> {
    match r {
        RuleSpec::Empty(n) => n,
        RuleSpec::Always(n) => n,
        RuleSpec::ExactValue(n, _) => n,
        RuleSpec::Regex(n, _) => n,
    }
}

/// Whether a rule removes an attribute with this value.
pub open spec fn rule_matches(r: RuleSpec, value: Seq<char>) -> bool {
    match r {
        RuleSpec::Empty(_) => trim(value).len() == 0,
        RuleSpec::Always(_) => true,
        RuleSpec::ExactValue(_, v) => value == v,
        RuleSpec::Regex(_, p) => regex_matches(p, value),
    }
}

impl RemoveRule {
    /// Remove `name` when its value is blank.
    pub fn empty(name: &str) -> (r: RemoveRule)
        ensures r@ == RuleSpec::Empty(name@),
    {
        RemoveRule::Empty(name.to_string())
    }

    /// Remove `name` always.
    pub fn always(name: &str) -> (r: RemoveRule)
        ensures r@ == RuleSpec::Always(name@),
    {
        RemoveRule::Always(name.to_string())
    }

    /// Remove `name` when its value is exactly `value`.
    pub fn exact(name: &str, value: &str) -> (r: RemoveRule)
        ensures r@ == RuleSpec::ExactValue(name@, value@),
    {
        RemoveRule::ExactValue { name: name.to_string(), value: value.to_string() }
    }

    /// Remove `name` when `pattern` matches its value; an invalid pattern is
    /// an error whose message begins `invalid regex: `.
    pub fn regex(name: &str, pattern: &str) -> (r: Result<RemoveRule, Error>)
        ensures
            r is Ok <==> regex_compile_error(pattern@) is None,
            r matches Ok(rule) ==> rule@ == RuleSpec::Regex(name@, pattern@),
            r matches Err(e) ==> (e matches Error::HtmlRewrite(m)
                && m@ == "invalid regex: "@ + regex_compile_error(pattern@).unwrap()),
    {
        match compile(pattern) {
            Ok(p) => Ok(RemoveRule::Regex { name: name.to_string(), pattern: p }),
            Err(m) => Err(Error::HtmlRewrite(concat2("invalid regex: ", m.as_str()))),
        }
    }

    /// The attribute the rule is about.
    pub fn attr_name(&self) -> (r: &str)
        ensures r@ == rule_name(self@),
    {
        match self {
            RemoveRule::Empty(n) => n.as_str(),
            RemoveRule::Always(n) => n.as_str(),
            RemoveRule::ExactValue { name, .. } => name.as_str(),
            RemoveRule::Regex { name, .. } => name.as_str(),
        }
    }

    /// Whether the rule removes an attribute with this value.
    pub fn matches(&self, value: &str) -> (r: bool)
        ensures r == rule_matches(self@, value@),
    {
        match self {
            RemoveRule::Empty(_) => {
                let v = chars_of(value);
                trimmed(&v).len() == 0
            },
            RemoveRule::Always(_) => true,
            RemoveRule::ExactValue { value: v, .. } => {
                let a = chars_of(value);
                let b = chars_of(v.as_str());
                same(&a, &b)
            },
            RemoveRule::Regex { pattern, .. } => is_match(pattern, value),
        }
    }
}

/// The default rules: remove blank `style` and `class` attributes.
pub fn default_rules() -> (r: Vec<RemoveRule>)
    ensures r@.map_values(|x: RemoveRule| x@) == seq![RuleSpec::Empty("style"@), RuleSpec::Empty("class"@)],
{
    let r = vec![RemoveRule::empty("style"), RemoveRule::empty("class")];
    assert(r@.map_values(|x: RemoveRule| x@) =~= seq![RuleSpec::Empty("style"@), RuleSpec::Empty("class"@)]);
    r
}

// ───────────────────────────── the pass ─────────────────────────────

/// An element's attributes after the rules, applied in order: a rule whose
/// attribute is present and whose test accepts the value removes it.
pub open spec fn apply_rules(rules: Seq<RuleSpec>, attrs: Seq<(Seq<char>, Seq<char>)>) -> Seq<(Seq<char>, Seq<char>)>
    decreases rules.len(),
{
    if rules.len() == 0 {
        attrs
    } else {
        let a = apply_rules(rules.drop_last(), attrs);
        let r = rules.last();
        match attr_get(a, rule_name(r)) {
            Some(v) => if rule_matches(r, v) { attr_remove(a, rule_name(r)) } else { a },
            None => a,
        }
    }
}

pub open spec fn rules_view(rules: Seq<RemoveRule>) -> Seq<RuleSpec> {
    rules.map_values(|x: RemoveRule| x@)
}

/// Applies the rules to one element.
pub fn on_element(rules: &[RemoveRule], el: &mut HtmlElement) -> (r: Result<(), AttributeNameError>)
    ensures
        r is Ok,
        crate::html::same_frame(*final(el), *old(el)),
        element_attrs(*final(el)) == apply_rules(rules_view(rules@), element_attrs(*old(el))),
{
    let ghost rv = rules_view(rules@);
    let ghost el0 = *el;
    let ghost attrs0 = element_attrs(*el);
    for k in 0..rules.len()
        invariant
            rv == rules_view(rules@),
            crate::html::same_frame(*el, el0),
            element_attrs(*el) == apply_rules(rv.take(k as int), attrs0),
    {
        proof {
            assert(rv.take(k + 1).drop_last() == rv.take(k as int));
            assert(rv.take(k + 1).last() == rules@[k as int]@);
        }
        let rule = &rules[k];
        let name = rule.attr_name();
        if let Some(value) = get_attribute(el, name) {
            if rule.matches(value.as_str()) {
                remove_attribute(el, name);
            }
        }
    }
    assert(rv.take(rules.len() as int) == rv);
    Ok(())
}

/// Removes attributes by the rules; with no rules the document comes back unchanged.
pub fn process(html: &str, rules: &[RemoveRule]) -> (r: Result<String, Error>)
    ensures
        r is Ok <==> (rules@.len() == 0
            || rewrite_outcome(html@, "style"@, true, RuleView::RemoveAttributes(rules_view(rules@))) is Ok),
        r matches Ok(s) ==> if rules@.len() == 0 {
            s@ == html@
        } else {
            rewrite_outcome(html@, "style"@, true, RuleView::RemoveAttributes(rules_view(rules@)))->Ok_0.0 == s@
        },
        r matches Err(e) ==> (e matches Error::HtmlRewrite(m) && rewrite_outcome(html@, "style"@, true, RuleView::RemoveAttributes(rules_view(rules@))) matches Err(o) && o == m@),
{
    if rules.len() == 0 {
        return Ok(html.to_string());
    }
    proof { reveal_strlit("style"); }
    let mut log = RewriteLog::new();
    let rule = HtmlRule::RemoveAttributes(rules);
    match rewrite(html, "style", true, &rule, &mut log) {
        Ok(s) => Ok(s),
        Err(m) => Err(Error::HtmlRewrite(m)),
    }
}


// ───────────────────────────── laws ─────────────────────────────

/// The rules only take attributes away: one that was absent stays absent.
pub proof fn lemma_rules_never_add(rules: Seq<RuleSpec>, attrs: Seq<(Seq<char>, Seq<char>)>, name: Seq<char>)
    requires
        attr_get(attrs, name) is None,
    ensures
        attr_get(apply_rules(rules, attrs), name) is None,
    decreases rules.len(),
{
    if rules.len() > 0 {
        lemma_rules_never_add(rules.drop_last(), attrs, name);
        let a = apply_rules(rules.drop_last(), attrs);
        lemma_attr_remove_never_adds(a, rule_name(rules.last()), name);
    }
}

/// With an `Always` rule for `name` among the rules, no element keeps a
/// `name` attribute.
pub proof fn lemma_always_rule_removes(rules: Seq<RuleSpec>, attrs: Seq<(Seq<char>, Seq<char>)>, name: Seq<char>)
    requires
        rules.contains(RuleSpec::Always(name)),
    ensures
        attr_get(apply_rules(rules, attrs), name) is None,
    decreases rules.len(),
{
    let a = apply_rules(rules.drop_last(), attrs);
    if rules.last() == RuleSpec::Always(name) {
        lemma_attr_remove_then_get(a, name);
    } else {
        let k = choose|k: int| 0 <= k < rules.len() && rules[k] == RuleSpec::Always(name);
        assert(rules.drop_last()[k] == RuleSpec::Always(name));
        lemma_always_rule_removes(rules.drop_last(), attrs, name);
        lemma_attr_remove_never_adds(a, rule_name(rules.last()), name);
    }
}

} // verus!
