//! Attribute defaults and colour fixes for email HTML.
//!
//! With default attributes on, every table gets `cellpadding="0"`,
//! `cellspacing="0"` and `role="none"` and every image an `alt`, where
//! missing. With six-digit hex on, a three-digit hex colour in a `bgcolor`
//! or `color` attribute is written out in six digits.
use vstd::prelude::*;
use crate::error::Error;
use crate::html::{attr_get, attr_set, element_attrs, element_tag, get_attribute, set_attribute, tag_name, HtmlElement};
use crate::html::{lemma_attr_set_keeps_others, lemma_attr_set_then_get, valid_attr_name};
use crate::rewrite::{rewrite, rewrite_outcome, HtmlRule, RewriteLog, RuleView};
use crate::text::{ascii_lower, chars_of, is_ws, trim_start, eq_str, is_ascii_hexdigit, is_hex, string_of, trim, trimmed};
use lol_html::errors::AttributeNameError;

verus! {

broadcast use vstd::string::group_string_axioms;

/// `#abc` written as `#aabbcc`: for a value that is, once trimmed, `#`
/// and three hex digits; none for anything else.
pub open spec fn spec_expand_short_hex(hex: Seq<char>) -> Option<Seq<char>> {
    let t = trim(hex);
    if t.len() == 4 && t[0] == '#' && is_hex(t[1]) && is_hex(t[2]) && is_hex(t[3]) {
        Some(seq!['#', t[1], t[1], t[2], t[2], t[3], t[3]])
    } else {
        None
    }
}

/// Expands a three-digit hex colour (see `spec_expand_short_hex`).
pub fn expand_short_hex(hex: &str) -> (r: Option<String>)
    ensures
        r matches Some(s) ==> spec_expand_short_hex(hex@) == Some(s@),
        r is None ==> spec_expand_short_hex(hex@) is None,
{
    let v = chars_of(hex);
    let t = trimmed(&v);
    if t.len() == 4 && t[0] == '#' && is_ascii_hexdigit(t[1]) && is_ascii_hexdigit(t[2]) && is_ascii_hexdigit(t[3]) {
        let out = vec!['#', t[1], t[1], t[2], t[2], t[3], t[3]];
        assert(out@ =~= seq!['#', t@[1], t@[1], t@[2], t@[2], t@[3], t@[3]]);
        Some(string_of(out.as_slice()))
    } else {
        None
    }
}

/// A colour the expansion wrote is not expanded again: six-digit hex is
/// left as it is by a second pass.
pub proof fn lemma_expanded_hex_is_final(hex: Seq<char>)
    requires
        spec_expand_short_hex(hex) is Some,
    ensures
        spec_expand_short_hex(spec_expand_short_hex(hex)->0) is None,
{
    let e = spec_expand_short_hex(hex)->0;
    assert(e.len() == 7 && e[0] == '#');
    assert(!is_ws(e[0]));
    assert(trim_start(e) == e);
    assert(is_hex(e[6]));
    assert(!is_ws(e.last()));
    assert(trim(e) == e);
}

/// Sets `name` to `value` unless the element already has it.
pub open spec fn set_if_absent(a: Seq<(Seq<char>, Seq<char>)>, name: Seq<char>, value: Seq<char>) -> Seq<(Seq<char>, Seq<char>)> {
    if attr_get(a, name) is None { attr_set(a, name, value) } else { a }
}

/// Expands the three-digit hex colour in attribute `name`, if it holds one.
pub open spec fn expand_attr(a: Seq<(Seq<char>, Seq<char>)>, name: Seq<char>) -> Seq<(Seq<char>, Seq<char>)> {
    match attr_get(a, name) {
        Some(v) => match spec_expand_short_hex(v) {
            Some(e) => attr_set(a, name, e),
            None => a,
        },
        None => a,
    }
}

/// What the pass does to an element's attributes.
pub open spec fn spec_element(default_attributes: bool, six_digit_hex: bool, tag: Seq<char>, attrs: Seq<(Seq<char>, Seq<char>)>) -> Seq<(Seq<char>, Seq<char>)> {
    let a1 = if default_attributes && tag == "table"@ {
        set_if_absent(set_if_absent(set_if_absent(attrs, "cellpadding"@, "0"@), "cellspacing"@, "0"@), "role"@, "none"@)
    } else {
        attrs
    };
    let a2 = if default_attributes && tag == "img"@ { set_if_absent(a1, "alt"@, ""@) } else { a1 };
    let a3 = if six_digit_hex { expand_attr(a2, "bgcolor"@) } else { a2 };
    if six_digit_hex { expand_attr(a3, "color"@) } else { a3 }
}

fn set_absent(el: &mut HtmlElement, name: &str, value: &str)
    requires crate::html::valid_attr_name(name@),
    ensures
        crate::html::same_frame(*final(el), *old(el)),
        element_attrs(*final(el)) == set_if_absent(element_attrs(*old(el)), name@, value@),
{
    if get_attribute(el, name).is_none() {
        let _ = set_attribute(el, name, value);
    }
}

fn expand_in(el: &mut HtmlElement, name: &str)
    requires crate::html::valid_attr_name(name@),
    ensures
        crate::html::same_frame(*final(el), *old(el)),
        element_attrs(*final(el)) == expand_attr(element_attrs(*old(el)), name@),
{
    if let Some(val) = get_attribute(el, name) {
        if let Some(expanded) = expand_short_hex(val.as_str()) {
            let _ = set_attribute(el, name, expanded.as_str());
        }
    }
}

/// Applies the enabled fixes to one element.
pub fn on_element(default_attributes: bool, six_digit_hex: bool, el: &mut HtmlElement) -> (r: Result<(), AttributeNameError>)
    ensures
        r is Ok,
        crate::html::same_frame(*final(el), *old(el)),
        element_attrs(*final(el)) == spec_element(default_attributes, six_digit_hex, element_tag(*old(el)), element_attrs(*old(el))),
{
    proof {
        reveal_strlit("cellpadding"); reveal_strlit("cellspacing"); reveal_strlit("role"); reveal_strlit("alt");
        reveal_strlit("bgcolor"); reveal_strlit("color");
    }
    let tag = chars_of(tag_name(el).as_str());
    if default_attributes && eq_str(&tag, "table") {
        set_absent(el, "cellpadding", "0");
        set_absent(el, "cellspacing", "0");
        set_absent(el, "role", "none");
    }
    if default_attributes && eq_str(&tag, "img") {
        set_absent(el, "alt", "");
    }
    if six_digit_hex {
        expand_in(el, "bgcolor");
        expand_in(el, "color");
    }
    Ok(())
}

/// Adds default table and image attributes and expands short hex colours,
/// as enabled.
pub fn process(html: &str, default_attributes: bool, six_digit_hex: bool) -> (r: Result<String, Error>)
    ensures
        r is Ok <==> rewrite_outcome(html@, "style"@, true, RuleView::HtmlTransforms(default_attributes, six_digit_hex)) is Ok,
        r matches Ok(s) ==> rewrite_outcome(html@, "style"@, true, RuleView::HtmlTransforms(default_attributes, six_digit_hex))->Ok_0.0 == s@,
        r matches Err(e) ==> (e matches Error::HtmlRewrite(m) && rewrite_outcome(html@, "style"@, true, RuleView::HtmlTransforms(default_attributes, six_digit_hex)) matches Err(o) && o == m@),
{
    proof { reveal_strlit("style"); }
    let mut log = RewriteLog::new();
    match rewrite(html, "style", true, &HtmlRule::HtmlTransforms(default_attributes, six_digit_hex), &mut log) {
        Ok(s) => Ok(s),
        Err(m) => Err(Error::HtmlRewrite(m)),
    }
}


// ───────────────────────────── laws ─────────────────────────────

proof fn lemma_set_if_absent_get(a: Seq<(Seq<char>, Seq<char>)>, name: Seq<char>, value: Seq<char>)
    requires
        valid_attr_name(name),
    ensures
        attr_get(set_if_absent(a, name, value), name) == if attr_get(a, name) is Some { attr_get(a, name) } else { Some(value) },
{
    if attr_get(a, name) is None {
        lemma_attr_set_then_get(a, name, value);
    }
}

proof fn lemma_set_if_absent_other(a: Seq<(Seq<char>, Seq<char>)>, name: Seq<char>, value: Seq<char>, other: Seq<char>)
    requires
        valid_attr_name(name),
        ascii_lower(other) != ascii_lower(name),
    ensures
        attr_get(set_if_absent(a, name, value), other) == attr_get(a, other),
{
    if attr_get(a, name) is None {
        lemma_attr_set_keeps_others(a, name, value, other);
    }
}

proof fn lemma_expand_attr_other(a: Seq<(Seq<char>, Seq<char>)>, name: Seq<char>, other: Seq<char>)
    requires
        valid_attr_name(name),
        ascii_lower(other) != ascii_lower(name),
    ensures
        attr_get(expand_attr(a, name), other) == attr_get(a, other),
{
    if let Some(v) = attr_get(a, name) {
        if let Some(e) = spec_expand_short_hex(v) {
            lemma_attr_set_keeps_others(a, name, e, other);
        }
    }
}

/// The attribute `name` once the pass has given it `value` where it was missing.
pub open spec fn defaulted(attrs: Seq<(Seq<char>, Seq<char>)>, name: Seq<char>, value: Seq<char>) -> Option<Seq<char>> {
    if attr_get(attrs, name) is Some { attr_get(attrs, name) } else { Some(value) }
}

/// With default attributes on, a table comes out with `cellpadding`,
/// `cellspacing` and `role`: the values it had, or `0`, `0` and `none`.
pub proof fn lemma_table_gets_defaults(six_digit_hex: bool, attrs: Seq<(Seq<char>, Seq<char>)>)
    ensures
        ({
            let out = spec_element(true, six_digit_hex, "table"@, attrs);
            &&& attr_get(out, "cellpadding"@) == defaulted(attrs, "cellpadding"@, "0"@)
            &&& attr_get(out, "cellspacing"@) == defaulted(attrs, "cellspacing"@, "0"@)
            &&& attr_get(out, "role"@) == defaulted(attrs, "role"@, "none"@)
        }),
{
    reveal_strlit("cellpadding"); reveal_strlit("cellspacing"); reveal_strlit("role");
    reveal_strlit("bgcolor"); reveal_strlit("color"); reveal_strlit("table"); reveal_strlit("img");
    assert("table"@.len() == 5 && "img"@.len() == 3);
    let (cp, cs, ro, bg, co) = ("cellpadding"@, "cellspacing"@, "role"@, "bgcolor"@, "color"@);
    assert(ascii_lower(cp)[4] == 'p' && ascii_lower(cs)[4] == 's');
    assert(ascii_lower(cp).len() == 11 && ascii_lower(cs).len() == 11 && ascii_lower(ro).len() == 4);
    assert(ascii_lower(bg).len() == 7 && ascii_lower(co).len() == 5);
    let a1 = set_if_absent(attrs, cp, "0"@);
    let a2 = set_if_absent(a1, cs, "0"@);
    let a3 = set_if_absent(a2, ro, "none"@);
    lemma_set_if_absent_get(attrs, cp, "0"@);
    lemma_set_if_absent_other(a1, cs, "0"@, cp);
    lemma_set_if_absent_other(a2, ro, "none"@, cp);
    lemma_set_if_absent_other(attrs, cp, "0"@, cs);
    lemma_set_if_absent_get(a1, cs, "0"@);
    lemma_set_if_absent_other(a2, ro, "none"@, cs);
    lemma_set_if_absent_other(attrs, cp, "0"@, ro);
    lemma_set_if_absent_other(a1, cs, "0"@, ro);
    lemma_set_if_absent_get(a2, ro, "none"@);
    if six_digit_hex {
        let a4 = expand_attr(a3, bg);
        lemma_expand_attr_other(a3, bg, cp);
        lemma_expand_attr_other(a3, bg, cs);
        lemma_expand_attr_other(a3, bg, ro);
        lemma_expand_attr_other(a4, co, cp);
        lemma_expand_attr_other(a4, co, cs);
        lemma_expand_attr_other(a4, co, ro);
    }
}

/// With default attributes on, an image comes out with an `alt`: the one it
/// had, or an empty one.
pub proof fn lemma_img_gets_alt(six_digit_hex: bool, attrs: Seq<(Seq<char>, Seq<char>)>)
    ensures
        attr_get(spec_element(true, six_digit_hex, "img"@, attrs), "alt"@) == defaulted(attrs, "alt"@, ""@),
{
    reveal_strlit("alt"); reveal_strlit("bgcolor"); reveal_strlit("color"); reveal_strlit("img"); reveal_strlit("table");
    let (al, bg, co) = ("alt"@, "bgcolor"@, "color"@);
    assert(ascii_lower(al).len() == 3 && ascii_lower(bg).len() == 7 && ascii_lower(co).len() == 5);
    let a2 = set_if_absent(attrs, al, ""@);
    lemma_set_if_absent_get(attrs, al, ""@);
    assert("table"@.len() == 5 && "img"@.len() == 3);
    if six_digit_hex {
        lemma_expand_attr_other(a2, bg, al);
        lemma_expand_attr_other(expand_attr(a2, bg), co, al);
    }
}

} // verus!
