//! Copying of inline CSS values into HTML attributes.
//!
//! For table cells, tables, images and a few more elements, the `width`,
//! `height`, `background-color`, `text-align` and `vertical-align` of the
//! inline style are copied into the matching presentational attribute
//! (`width`, `height`, `bgcolor`, `align`, `valign`) when the element does
//! not have it yet. Sizes lose their `px`; values that are not numbers are
//! not copied as sizes.
use vstd::prelude::*;
use crate::error::Error;
use crate::html::{attr_get, attr_set, element_attrs, element_tag, get_attribute, set_attribute, tag_name, HtmlElement};
use crate::html::lemma_attr_set_keeps_others;
use crate::rewrite::{rewrite, rewrite_outcome, HtmlRule, RewriteLog, RuleView};
use crate::text::{ascii_lower, 
    chars_of, ends_with, eq_str, find, find_char, find_from, is_ascii_digit, lemma_find_from_facts, matches_at, same,
    slice, split_char, split_on, string_of, trim, trimmed,
};
use crate::transformers::attribute_to_style::all_number_chars;
use lol_html::errors::AttributeNameError;

verus! {

broadcast use vstd::string::group_string_axioms;

// ───────────────────────────── values ─────────────────────────────

/// The value of the first declaration of `prop` among the pieces: each is
/// trimmed and split at its first colon; the property must equal `prop`
/// once trimmed.
pub open spec fn css_value_in(pieces: Seq<Seq<char>>, prop: Seq<char>) -> Option<Seq<char>>
    decreases pieces.len(),
{
    if pieces.len() == 0 {
        None
    } else {
        let d = trim(pieces[0]);
        match find(d, seq![':']) {
            Some(c) => if trim(d.subrange(0, c)) == prop {
                Some(trim(d.subrange(c + 1, d.len() as int)))
            } else {
                css_value_in(pieces.drop_first(), prop)
            },
            None => css_value_in(pieces.drop_first(), prop),
        }
    }
}

/// The value a style text gives `prop`, trimmed.
pub open spec fn spec_css_value(style: Seq<char>, prop: Seq<char>) -> Option<Seq<char>> {
    css_value_in(split_char(style, ';'), prop)
}

/// The value a style text gives a property (see `spec_css_value`).
pub fn extract_css_value(style: &str, prop: &str) -> (r: Option<String>)
    ensures
        r matches Some(v) ==> spec_css_value(style@, prop@) == Some(v@),
        r is None ==> spec_css_value(style@, prop@) is None,
{
    let sv = chars_of(style);
    let pv = chars_of(prop);
    let pieces = split_on(&sv, ';');
    let ghost ps = split_char(style@, ';');
    let mut k: usize = 0;
    assert(ps.subrange(0, ps.len() as int) == ps);
    while k < pieces.len()
        invariant
            k <= pieces.len(),
            ps == split_char(style@, ';'),
            pv@ == prop@,
            pieces@.len() == ps.len(),
            forall|j: int| 0 <= j < pieces@.len() ==> #[trigger] pieces@[j]@ == ps[j],
            spec_css_value(style@, prop@) == css_value_in(ps.subrange(k as int, ps.len() as int), prop@),
        decreases pieces.len() - k,
    {
        let ghost rest = ps.subrange(k as int, ps.len() as int);
        assert(rest[0] == pieces@[k as int]@);
        assert(rest.drop_first() == ps.subrange(k + 1, ps.len() as int));
        let d = trimmed(&pieces[k]);
        proof { lemma_find_from_facts(d@, seq![':'], 0); }
        if let Some(c) = find_char(&d, ':', 0) {
            assert(matches_at(d@, c as int, seq![':']));
            assert(seq![':'].len() == 1);
            let p0 = slice(&d, 0, c);
            let p = trimmed(&p0);
            if same(&p, &pv) {
                assert(c < d.len());
                let v0 = slice(&d, c + 1, d.len());
                let v = trimmed(&v0);
                return Some(string_of(v.as_slice()));
            }
        }
        k = k + 1;
    }
    None
}

/// A size value as an attribute takes it: without a `px` suffix (trimmed
/// again); a percentage or a bare number as it is; anything else gives
/// nothing.
pub open spec fn spec_strip_px_unit(value: Seq<char>) -> Seq<char> {
    let t = trim(value);
    if ends_with(t, "px"@) {
        trim(t.subrange(0, t.len() - 2))
    } else if ends_with(t, seq!['%']) {
        t
    } else if all_number_chars(t) {
        t
    } else {
        seq![]
    }
}

/// Strips `px` from a size (see `spec_strip_px_unit`).
pub fn strip_px_unit(value: &str) -> (r: String)
    ensures r@ == spec_strip_px_unit(value@),
{
    proof { reveal_strlit("px"); }
    let v0 = chars_of(value);
    let t = trimmed(&v0);
    let n = t.len();
    if n >= 2 && t[n - 2] == 'p' && t[n - 1] == 'x' {
        assert(t@.subrange(n - 2, n as int) =~= "px"@);
        let num = slice(&t, 0, n - 2);
        let r = trimmed(&num);
        return string_of(r.as_slice());
    }
    proof {
        if ends_with(t@, "px"@) {
            assert(t@.subrange(n - 2, n as int)[0] == t@[n - 2]);
            assert(t@.subrange(n - 2, n as int)[1] == t@[n - 1]);
        }
    }
    if n >= 1 && t[n - 1] == '%' {
        assert(t@.subrange(n - 1, n as int) =~= seq!['%']);
        return string_of(t.as_slice());
    }
    proof {
        if ends_with(t@, seq!['%']) {
            assert(t@.subrange(n - 1, n as int)[0] == t@[n - 1]);
        }
    }
    let mut all = true;
    let mut i: usize = 0;
    while i < n
        invariant
            n == t.len(),
            i <= n,
            all == (forall|j: int| 0 <= j < i ==> is_digit_or_point(#[trigger] t@[j])),
        decreases n - i,
    {
        if !(is_ascii_digit(t[i]) || t[i] == '.') {
            all = false;
        }
        i = i + 1;
    }
    if all {
        string_of(t.as_slice())
    } else {
        String::new()
    }
}

pub open spec fn is_digit_or_point(c: char) -> bool {
    crate::text::is_digit(c) || c == '.'
}

// ───────────────────────────── mappings ─────────────────────────────

/// The copies made, in order: (tag, CSS property, attribute, whether the
/// value is a size).
pub open spec fn mapping_at(i: int) -> (Seq<char>, Seq<char>, Seq<char>, bool) {
    if i == 0 { ("table"@, "width"@, "width"@, true) }
    else if i == 1 { ("td"@, "width"@, "width"@, true) }
    else if i == 2 { ("th"@, "width"@, "width"@, true) }
    else if i == 3 { ("img"@, "width"@, "width"@, true) }
    else if i == 4 { ("video"@, "width"@, "width"@, true) }
    else if i == 5 { ("table"@, "height"@, "height"@, true) }
    else if i == 6 { ("td"@, "height"@, "height"@, true) }
    else if i == 7 { ("th"@, "height"@, "height"@, true) }
    else if i == 8 { ("img"@, "height"@, "height"@, true) }
    else if i == 9 { ("video"@, "height"@, "height"@, true) }
    else if i == 10 { ("table"@, "background-color"@, "bgcolor"@, false) }
    else if i == 11 { ("td"@, "background-color"@, "bgcolor"@, false) }
    else if i == 12 { ("th"@, "background-color"@, "bgcolor"@, false) }
    else if i == 13 { ("tr"@, "background-color"@, "bgcolor"@, false) }
    else if i == 14 { ("body"@, "background-color"@, "bgcolor"@, false) }
    else if i == 15 { ("td"@, "text-align"@, "align"@, false) }
    else if i == 16 { ("th"@, "text-align"@, "align"@, false) }
    else if i == 17 { ("p"@, "text-align"@, "align"@, false) }
    else if i == 18 { ("div"@, "text-align"@, "align"@, false) }
    else if i == 19 { ("td"@, "vertical-align"@, "valign"@, false) }
    else { ("th"@, "vertical-align"@, "valign"@, false) }
}

proof fn lemma_mapping_attr_valid(i: int)
    requires 0 <= i < MAPPING_COUNT,
    ensures crate::html::valid_attr_name(mapping_at(i).2),
{
    reveal_strlit("width");
    reveal_strlit("height");
    reveal_strlit("bgcolor");
    reveal_strlit("align");
    reveal_strlit("valign");
}

/// How many copies there are.
pub const MAPPING_COUNT: usize = 21;

fn mapping_exec(i: usize) -> (r: (&'static str, &'static str, &'static str, bool))
    requires i < MAPPING_COUNT,
    ensures (r.0@, r.1@, r.2@, r.3) == mapping_at(i as int),
{
    if i == 0 { ("table", "width", "width", true) }
    else if i == 1 { ("td", "width", "width", true) }
    else if i == 2 { ("th", "width", "width", true) }
    else if i == 3 { ("img", "width", "width", true) }
    else if i == 4 { ("video", "width", "width", true) }
    else if i == 5 { ("table", "height", "height", true) }
    else if i == 6 { ("td", "height", "height", true) }
    else if i == 7 { ("th", "height", "height", true) }
    else if i == 8 { ("img", "height", "height", true) }
    else if i == 9 { ("video", "height", "height", true) }
    else if i == 10 { ("table", "background-color", "bgcolor", false) }
    else if i == 11 { ("td", "background-color", "bgcolor", false) }
    else if i == 12 { ("th", "background-color", "bgcolor", false) }
    else if i == 13 { ("tr", "background-color", "bgcolor", false) }
    else if i == 14 { ("body", "background-color", "bgcolor", false) }
    else if i == 15 { ("td", "text-align", "align", false) }
    else if i == 16 { ("th", "text-align", "align", false) }
    else if i == 17 { ("p", "text-align", "align", false) }
    else if i == 18 { ("div", "text-align", "align", false) }
    else if i == 19 { ("td", "vertical-align", "valign", false) }
    else { ("th", "vertical-align", "valign", false) }
}

/// One copy on an element with tag `tag`: made when the tag is the
/// mapping's, the attribute is absent, the style gives the property, and
/// the value (stripped of `px` for sizes) is not empty.
pub open spec fn apply_mapping(m: (Seq<char>, Seq<char>, Seq<char>, bool), tag: Seq<char>, a: Seq<(Seq<char>, Seq<char>)>) -> Seq<(Seq<char>, Seq<char>)> {
    if tag != m.0 || attr_get(a, m.2) is Some {
        a
    } else {
        match attr_get(a, "style"@) {
            None => a,
            Some(st) => match spec_css_value(st, m.1) {
                None => a,
                Some(v) => {
                    let fv = if m.3 { spec_strip_px_unit(v) } else { v };
                    if fv.len() == 0 { a } else { attr_set(a, m.2, fv) }
                },
            },
        }
    }
}

/// The first `n` copies, in order.
pub open spec fn apply_mappings(n: nat, tag: Seq<char>, attrs: Seq<(Seq<char>, Seq<char>)>) -> Seq<(Seq<char>, Seq<char>)>
    decreases n,
{
    if n == 0 {
        attrs
    } else {
        apply_mapping(mapping_at(n - 1), tag, apply_mappings((n - 1) as nat, tag, attrs))
    }
}

/// What the pass does to an element's attributes.
pub open spec fn spec_element(tag: Seq<char>, attrs: Seq<(Seq<char>, Seq<char>)>) -> Seq<(Seq<char>, Seq<char>)> {
    apply_mappings(MAPPING_COUNT as nat, tag, attrs)
}

proof fn lemma_mappings_keep(k: nat, tag: Seq<char>, attrs: Seq<(Seq<char>, Seq<char>)>, name: Seq<char>)
    requires
        k <= MAPPING_COUNT,
        attr_get(attrs, name) is Some,
    ensures
        attr_get(apply_mappings(k, tag, attrs), name) == attr_get(attrs, name),
    decreases k,
{
    if k > 0 {
        lemma_mappings_keep((k - 1) as nat, tag, attrs, name);
        let a = apply_mappings((k - 1) as nat, tag, attrs);
        let m = mapping_at(k - 1);
        lemma_mapping_attr_valid(k - 1);
        if ascii_lower(name) != ascii_lower(m.2) {
            if let Some(st) = attr_get(a, "style"@) {
                if let Some(v) = spec_css_value(st, m.1) {
                    let fv = if m.3 { spec_strip_px_unit(v) } else { v };
                    lemma_attr_set_keeps_others(a, m.2, fv, name);
                }
            }
        }
    }
}

/// An attribute the element already has is never overwritten.
pub proof fn lemma_existing_attr_kept(tag: Seq<char>, attrs: Seq<(Seq<char>, Seq<char>)>, name: Seq<char>)
    requires
        attr_get(attrs, name) is Some,
    ensures
        attr_get(spec_element(tag, attrs), name) == attr_get(attrs, name),
{
    lemma_mappings_keep(MAPPING_COUNT as nat, tag, attrs, name);
}

/// The attribute names the copies write, lowercase, and what tells them and
/// `style` apart.
proof fn lemma_mapping_names()
    ensures
        ascii_lower("width"@) == "width"@,
        ascii_lower("height"@) == "height"@,
        ascii_lower("bgcolor"@) == "bgcolor"@,
        ascii_lower("align"@) == "align"@,
        ascii_lower("valign"@) == "valign"@,
        ascii_lower("style"@) == "style"@,
        "bgcolor"@[0] == 'b',
        "width"@.len() == 5 && "height"@.len() == 6 && "bgcolor"@.len() == 7,
        "align"@.len() == 5 && "valign"@.len() == 6 && "style"@.len() == 5,
        "width"@[0] == 'w' && "height"@[0] == 'h' && "align"@[0] == 'a' && "valign"@[0] == 'v' && "style"@[0] == 's',
{
    reveal_strlit("width"); reveal_strlit("height"); reveal_strlit("bgcolor");
    reveal_strlit("align"); reveal_strlit("valign"); reveal_strlit("style");
    assert(ascii_lower("width"@) =~= "width"@);
    assert(ascii_lower("height"@) =~= "height"@);
    assert(ascii_lower("bgcolor"@) =~= "bgcolor"@);
    assert(ascii_lower("align"@) =~= "align"@);
    assert(ascii_lower("valign"@) =~= "valign"@);
    assert(ascii_lower("style"@) =~= "style"@);
}

/// The value that an element's style gives a property, if it has a style
/// and the style gives it.
pub open spec fn style_value(attrs: Seq<(Seq<char>, Seq<char>)>, prop: Seq<char>) -> Option<Seq<char>> {
    match attr_get(attrs, "style"@) {
        Some(st) => spec_css_value(st, prop),
        None => None,
    }
}

/// The CSS property each copied attribute comes from: `width` and `height`
/// from themselves, `bgcolor` from `background-color`, `align` from
/// `text-align`, `valign` from `vertical-align`.
pub open spec fn source_prop(attr: Seq<char>) -> Seq<char> {
    if attr == "bgcolor"@ { "background-color"@ }
    else if attr == "align"@ { "text-align"@ }
    else if attr == "valign"@ { "vertical-align"@ }
    else { attr }
}

/// What a copied attribute takes of the style's value: a size without its
/// `px`; a colour or an alignment as it is.
pub open spec fn copied_value(attr: Seq<char>, v: Seq<char>) -> Seq<char> {
    if attr == "width"@ || attr == "height"@ { spec_strip_px_unit(v) } else { v }
}

/// The attributes that are copied from the style.
pub open spec fn copied_attr(attr: Seq<char>) -> bool {
    attr == "width"@ || attr == "height"@ || attr == "bgcolor"@ || attr == "align"@ || attr == "valign"@
}

/// The tags whose elements get each attribute: sizes on tables, cells,
/// header cells, images and videos; `bgcolor` on tables, cells, header cells,
/// rows and the body; `align` on cells, header cells, paragraphs and divs;
/// `valign` on cells and header cells.
pub open spec fn copy_tag(attr: Seq<char>, tag: Seq<char>) -> bool {
    if attr == "width"@ || attr == "height"@ {
        tag == "table"@ || tag == "td"@ || tag == "th"@ || tag == "img"@ || tag == "video"@
    } else if attr == "bgcolor"@ {
        tag == "table"@ || tag == "td"@ || tag == "th"@ || tag == "tr"@ || tag == "body"@
    } else if attr == "align"@ {
        tag == "td"@ || tag == "th"@ || tag == "p"@ || tag == "div"@
    } else if attr == "valign"@ {
        tag == "td"@ || tag == "th"@
    } else {
        false
    }
}

/// Each copy writes its attribute from that attribute's source property, in
/// the way `copied_value` says.
proof fn lemma_mapping_row(i: int)
    requires
        0 <= i < MAPPING_COUNT,
    ensures
        copied_attr(mapping_at(i).2),
        mapping_at(i).1 == source_prop(mapping_at(i).2),
        forall|v: Seq<char>| (if mapping_at(i).3 { spec_strip_px_unit(v) } else { v }) == #[trigger] copied_value(mapping_at(i).2, v),
{
    lemma_mapping_names();
}

/// A tag that gets an attribute has a copy for it.
proof fn lemma_copy_row_exists(attr: Seq<char>, tag: Seq<char>)
    requires
        copy_tag(attr, tag),
    ensures
        exists|j: int| 0 <= j < MAPPING_COUNT && mapping_at(j).0 == tag && mapping_at(j).2 == attr,
{
    lemma_mapping_names();
    let j: int = if attr == "width"@ {
        if tag == "table"@ { 0 } else if tag == "td"@ { 1 } else if tag == "th"@ { 2 } else if tag == "img"@ { 3 } else { 4 }
    } else if attr == "height"@ {
        if tag == "table"@ { 5 } else if tag == "td"@ { 6 } else if tag == "th"@ { 7 } else if tag == "img"@ { 8 } else { 9 }
    } else if attr == "bgcolor"@ {
        if tag == "table"@ { 10 } else if tag == "td"@ { 11 } else if tag == "th"@ { 12 } else if tag == "tr"@ { 13 } else { 14 }
    } else if attr == "align"@ {
        if tag == "td"@ { 15 } else if tag == "th"@ { 16 } else if tag == "p"@ { 17 } else { 18 }
    } else {
        if tag == "td"@ { 19 } else { 20 }
    };
    assert(mapping_at(j).0 == tag && mapping_at(j).2 == attr);
}

/// The first `k` copies, seen from one copied attribute of an element that
/// had none: the style stays; whatever the attribute gets is its source
/// property's value as `copied_value` takes it; and once a copy for this tag
/// and attribute has run, a non-empty such value is there.
#[verifier::rlimit(40)]
proof fn lemma_copy_prefix(k: nat, tag: Seq<char>, attrs: Seq<(Seq<char>, Seq<char>)>, attr: Seq<char>)
    requires
        k <= MAPPING_COUNT,
        copied_attr(attr),
        attr_get(attrs, attr) is None,
    ensures
        attr_get(apply_mappings(k, tag, attrs), "style"@) == attr_get(attrs, "style"@),
        attr_get(apply_mappings(k, tag, attrs), attr) matches Some(w) ==> (
            style_value(attrs, source_prop(attr)) matches Some(v) && w == copied_value(attr, v)),
        ((exists|j: int| 0 <= j < k && mapping_at(j).0 == tag && mapping_at(j).2 == attr)
            && style_value(attrs, source_prop(attr)) is Some
            && copied_value(attr, style_value(attrs, source_prop(attr))->0).len() > 0)
            ==> attr_get(apply_mappings(k, tag, attrs), attr)
                == Some(copied_value(attr, style_value(attrs, source_prop(attr))->0)),
    decreases k,
{
    lemma_mapping_names();
    if k > 0 {
        let i = k - 1;
        lemma_copy_prefix(i as nat, tag, attrs, attr);
        lemma_mapping_attr_valid(i);
        lemma_mapping_row(i);
        let a = apply_mappings(i as nat, tag, attrs);
        let m = mapping_at(i);
        assert(apply_mappings(k, tag, attrs) == apply_mapping(m, tag, a));
        if tag == m.0 && attr_get(a, m.2) is None {
            if let Some(st) = attr_get(a, "style"@) {
                if let Some(v) = spec_css_value(st, m.1) {
                    let fv = if m.3 { spec_strip_px_unit(v) } else { v };
                    assert(fv == copied_value(m.2, v));
                    if fv.len() > 0 {
                        assert(ascii_lower(m.2) != ascii_lower("style"@));
                        lemma_attr_set_keeps_others(a, m.2, fv, "style"@);
                        if m.2 == attr {
                            crate::html::lemma_attr_set_then_get(a, m.2, fv);
                        } else {
                            assert(ascii_lower(m.2) != ascii_lower(attr));
                            lemma_attr_set_keeps_others(a, m.2, fv, attr);
                        }
                    }
                }
            }
        }
        assert((exists|j: int| 0 <= j < k && mapping_at(j).0 == tag && mapping_at(j).2 == attr)
            == ((exists|j: int| 0 <= j < i && mapping_at(j).0 == tag && mapping_at(j).2 == attr)
                || (m.0 == tag && m.2 == attr)));
    }
}

/// What the pass copies from the style into an attribute the element does
/// not have: `width` and `height` the size without its unit (so `600px`
/// becomes `600`), `bgcolor` the `background-color`, `align` the
/// `text-align` and `valign` the `vertical-align`, each as it is; nothing
/// else ever lands there; and an element of one of the attribute's tags
/// whose style gives a usable value gets it.
pub proof fn lemma_style_copies(tag: Seq<char>, attrs: Seq<(Seq<char>, Seq<char>)>, attr: Seq<char>)
    requires
        copied_attr(attr),
        attr_get(attrs, attr) is None,
    ensures
        attr_get(spec_element(tag, attrs), attr) matches Some(w) ==> (
            style_value(attrs, source_prop(attr)) matches Some(v) && w == copied_value(attr, v)),
        (copy_tag(attr, tag)
            && style_value(attrs, source_prop(attr)) is Some
            && copied_value(attr, style_value(attrs, source_prop(attr))->0).len() > 0)
            ==> attr_get(spec_element(tag, attrs), attr)
                == Some(copied_value(attr, style_value(attrs, source_prop(attr))->0)),
{
    lemma_copy_prefix(MAPPING_COUNT as nat, tag, attrs, attr);
    if copy_tag(attr, tag) {
        lemma_copy_row_exists(attr, tag);
    }
}

/// Sizes are copied without their unit: whatever `width` or `height`
/// attribute the pass gives an element that had none is the style's value of
/// that property with its `px` stripped (so `600px` becomes `600`); and a
/// table, cell, header cell, image or video whose style gives a size that
/// strips to something gets that attribute.
pub proof fn lemma_sizes_copied_without_unit(tag: Seq<char>, attrs: Seq<(Seq<char>, Seq<char>)>, attr: Seq<char>)
    requires
        attr == "width"@ || attr == "height"@,
        attr_get(attrs, attr) is None,
    ensures
        attr_get(spec_element(tag, attrs), attr) matches Some(w) ==> (
            style_value(attrs, attr) matches Some(v) && w == spec_strip_px_unit(v)),
        ((tag == "table"@ || tag == "td"@ || tag == "th"@ || tag == "img"@ || tag == "video"@)
            && style_value(attrs, attr) is Some
            && spec_strip_px_unit(style_value(attrs, attr)->0).len() > 0)
            ==> attr_get(spec_element(tag, attrs), attr) == Some(spec_strip_px_unit(style_value(attrs, attr)->0)),
{
    lemma_mapping_names();
    lemma_style_copies(tag, attrs, attr);
}

/// Copies the mapped style values of one element into attributes.
pub fn on_element(el: &mut HtmlElement) -> (r: Result<(), AttributeNameError>)
    ensures
        r is Ok,
        crate::html::same_frame(*final(el), *old(el)),
        element_attrs(*final(el)) == spec_element(element_tag(*old(el)), element_attrs(*old(el))),
{
    let tag = chars_of(tag_name(el).as_str());
    let ghost attrs0 = element_attrs(*el);
    let ghost el0 = *el;
    let mut i: usize = 0;
    while i < MAPPING_COUNT
        invariant
            i <= MAPPING_COUNT,
            tag@ == element_tag(*el),
            crate::html::same_frame(*el, el0),
            element_attrs(*el) == apply_mappings(i as nat, tag@, attrs0),
        decreases MAPPING_COUNT - i,
    {
        proof { reveal_strlit("style"); }
        let m = mapping_exec(i);
        if eq_str(&tag, m.0) && get_attribute(el, m.2).is_none() {
            if let Some(style) = get_attribute(el, "style") {
                if let Some(value) = extract_css_value(style.as_str(), m.1) {
                    let fv = if m.3 { strip_px_unit(value.as_str()) } else { value };
                    if chars_of(fv.as_str()).len() > 0 {
                        proof { lemma_mapping_attr_valid(i as int); }
                        let _ = set_attribute(el, m.2, fv.as_str());
                    }
                }
            }
        }
        i = i + 1;
    }
    Ok(())
}

/// Copies inline style values into presentational attributes (see the module).
pub fn process(html: &str) -> (r: Result<String, Error>)
    ensures
        r is Ok <==> rewrite_outcome(html@, "style"@, true, RuleView::StyleToAttr) is Ok,
        r matches Ok(s) ==> rewrite_outcome(html@, "style"@, true, RuleView::StyleToAttr)->Ok_0.0 == s@,
        r matches Err(e) ==> (e matches Error::HtmlRewrite(m) && rewrite_outcome(html@, "style"@, true, RuleView::StyleToAttr) matches Err(o) && o == m@),
{
    proof { reveal_strlit("style"); }
    let mut log = RewriteLog::new();
    match rewrite(html, "style", true, &HtmlRule::StyleToAttr, &mut log) {
        Ok(s) => Ok(s),
        Err(m) => Err(Error::HtmlRewrite(m)),
    }
}

} // verus!
