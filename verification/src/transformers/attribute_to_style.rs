//! Copying of presentational HTML attributes into inline CSS.
//!
//! For each of the attribute names asked for, in order, an element's
//! non-blank attribute becomes one or two declarations (`bgcolor` gives
//! `background-color`, `width` gives a `width` with `px` added to a bare
//! number, ...). The declarations are appended to the element's `style`,
//! except those whose property the style already sets.
use vstd::prelude::*;
use crate::error::Error;
use crate::html::{attr_get, attr_set, element_attrs, element_tag, get_attribute, set_attribute, tag_name, HtmlElement};
use crate::rewrite::{rewrite, rewrite_outcome, HtmlRule, RewriteLog, RuleView};
use crate::text::{
    chars_of, ends_with, eq_ignore_ascii_case, eq_ignore_case, eq_str, find, find_char, find_from, is_ascii_digit,
    is_digit, join, join_with, lemma_find_from_facts, lit, matches_at, push_all, push_str, slice, split_char, split_on,
    string_of, to_lowercase, trim, trimmed, lowercase,
};
use lol_html::errors::AttributeNameError;

verus! {

broadcast use vstd::string::group_string_axioms;

/// A declaration as (property, value).
pub open spec fn decls_view(d: Seq<(String, String)>) -> Seq<(Seq<char>, Seq<char>)> {
    d.map_values(|p: (String, String)| (p.0@, p.1@))
}

// ───────────────────────────── sizes ─────────────────────────────

pub open spec fn all_number_chars(s: Seq<char>) -> bool {
    forall|i: int| 0 <= i < s.len() ==> is_digit(#[trigger] s[i]) || s[i] == '.'
}

/// A size as CSS wants it: a bare number (digits and points) gets `px`;
/// a percentage or anything else stays as it is, trimmed.
pub open spec fn spec_normalize_size(value: Seq<char>) -> Seq<char> {
    let t = trim(value);
    if ends_with(t, seq!['%']) {
        t
    } else if all_number_chars(t) && t.len() > 0 {
        t + "px"@
    } else {
        t
    }
}

/// Adds `px` to a bare number (see `spec_normalize_size`).
pub fn normalize_size(value: &Vec<char>) -> (r: Vec<char>)
    ensures r@ == spec_normalize_size(value@),
{
    proof { reveal_strlit("px"); }
    let t = trimmed(value);
    if t.len() > 0 && t[t.len() - 1] == '%' {
        assert(t@.subrange(t@.len() - 1, t@.len() as int) =~= seq!['%']);
        return t;
    }
    proof {
        if ends_with(t@, seq!['%']) {
            assert(t@.subrange(t@.len() - 1, t@.len() as int)[0] == t@[t@.len() - 1]);
        }
    }
    let mut all = true;
    let mut i: usize = 0;
    while i < t.len()
        invariant
            i <= t.len(),
            all == (forall|j: int| 0 <= j < i ==> is_digit(#[trigger] t@[j]) || t@[j] == '.'),
        decreases t.len() - i,
    {
        if !(is_ascii_digit(t[i]) || t[i] == '.') {
            all = false;
        }
        i = i + 1;
    }
    if all && t.len() > 0 {
        let mut out = t;
        push_str(&mut out, "px");
        out
    } else {
        t
    }
}

// ───────────────────────────── merging ─────────────────────────────

/// The lowercased properties of the declarations of a style text that have a colon.
pub open spec fn existing_props(pieces: Seq<Seq<char>>) -> Seq<Seq<char>>
    decreases pieces.len(),
{
    if pieces.len() == 0 {
        seq![]
    } else {
        existing_props(pieces.drop_last()) + match find(pieces.last(), seq![':']) {
            Some(c) => seq![lowercase(trim(pieces.last().subrange(0, c)))],
            None => seq![],
        }
    }
}

/// The non-blank declarations of a style text, trimmed.
pub open spec fn kept_decls(pieces: Seq<Seq<char>>) -> Seq<Seq<char>>
    decreases pieces.len(),
{
    if pieces.len() == 0 {
        seq![]
    } else {
        let t = trim(pieces.last());
        kept_decls(pieces.drop_last()) + if t.len() > 0 { seq![t] } else { seq![] }
    }
}

/// The new declarations, written `prop: value`, whose property the existing
/// style does not set.
pub open spec fn added_decls(new_decls: Seq<(Seq<char>, Seq<char>)>, props: Seq<Seq<char>>) -> Seq<Seq<char>>
    decreases new_decls.len(),
{
    if new_decls.len() == 0 {
        seq![]
    } else {
        let (p, v) = new_decls.last();
        added_decls(new_decls.drop_last(), props)
            + if props.contains(lowercase(p)) { seq![] } else { seq![p + ": "@ + v] }
    }
}

/// An existing style with new declarations merged in: the existing
/// non-blank declarations, then the new ones it does not override, joined by `; `.
pub open spec fn spec_merge_styles(existing: Seq<char>, new_decls: Seq<(Seq<char>, Seq<char>)>) -> Seq<char> {
    let pieces = split_char(existing, ';');
    join(kept_decls(pieces) + added_decls(new_decls, existing_props(pieces)), "; "@)
}

/// Merges new declarations into a style (see `spec_merge_styles`).
pub fn merge_styles(existing: &str, new_decls: &Vec<(String, String)>) -> (r: String)
    ensures r@ == spec_merge_styles(existing@, decls_view(new_decls@)),
{
    proof { reveal_strlit(": "); }
    let ev = chars_of(existing);
    let pieces = split_on(&ev, ';');
    let ghost ps = split_char(existing@, ';');
    let mut props: Vec<Vec<char>> = Vec::new();
    let mut decls: Vec<Vec<char>> = Vec::new();
    for k in 0..pieces.len()
        invariant
            ev@ == existing@,
            ps == split_char(existing@, ';'),
            pieces@.len() == ps.len(),
            forall|j: int| 0 <= j < pieces@.len() ==> #[trigger] pieces@[j]@ == ps[j],
            props@.map_values(|x: Vec<char>| x@) == existing_props(ps.take(k as int)),
            decls@.map_values(|x: Vec<char>| x@) == kept_decls(ps.take(k as int)),
    {
        proof {
            assert(ps.take(k + 1).drop_last() == ps.take(k as int));
            assert(ps.take(k + 1).last() == pieces@[k as int]@);
            lemma_find_from_facts(pieces@[k as int]@, seq![':'], 0);
        }
        let ghost p0 = props@.map_values(|x: Vec<char>| x@);
        let ghost d0 = decls@.map_values(|x: Vec<char>| x@);
        let piece = &pieces[k];
        match find_char(piece, ':', 0) {
            Some(c) => {
                assert(matches_at(piece@, c as int, seq![':']));
                assert(seq![':'].len() == 1);
                let name = slice(piece, 0, c);
                let tn = trimmed(&name);
                let ts = string_of(tn.as_slice());
                let low = to_lowercase(ts.as_str());
                props.push(chars_of(low.as_str()));
                assert(props@.map_values(|x: Vec<char>| x@) =~= p0 + seq![lowercase(trim(piece@.subrange(0, c as int)))]);
            },
            None => {
                assert(props@.map_values(|x: Vec<char>| x@) =~= p0 + seq![]);
            },
        }
        let t = trimmed(piece);
        if t.len() > 0 {
            decls.push(t);
            assert(decls@.map_values(|x: Vec<char>| x@) =~= d0 + seq![trim(piece@)]);
        } else {
            assert(decls@.map_values(|x: Vec<char>| x@) =~= d0 + seq![]);
        }
    }
    assert(ps.take(pieces.len() as int) == ps);
    let ghost pv = props@.map_values(|x: Vec<char>| x@);
    let ghost kept = decls@.map_values(|x: Vec<char>| x@);
    let ghost nv = decls_view(new_decls@);
    for k in 0..new_decls.len()
        invariant
            nv == decls_view(new_decls@),
            pv == props@.map_values(|x: Vec<char>| x@),
            decls@.map_values(|x: Vec<char>| x@) == kept + added_decls(nv.take(k as int), pv),
    {
        proof {
            assert(nv.take(k + 1).drop_last() == nv.take(k as int));
            assert(nv.take(k + 1).last() == (new_decls@[k as int].0@, new_decls@[k as int].1@));
        }
        let ghost d0 = decls@.map_values(|x: Vec<char>| x@);
        let (p, v) = &new_decls[k];
        let low = to_lowercase(p.as_str());
        let lv = chars_of(low.as_str());
        let mut found = false;
        let mut j: usize = 0;
        while j < props.len()
            invariant
                j <= props.len(),
                pv == props@.map_values(|x: Vec<char>| x@),
                found == (exists|m: int| 0 <= m < j && pv[m] == lv@),
            decreases props.len() - j,
        {
            assert(pv[j as int] == props@[j as int]@);
            if crate::text::same(&props[j], &lv) {
                found = true;
            }
            proof {
                assert forall|m: int| 0 <= m < j + 1 && pv[m] == lv@ implies (m < j || props@[j as int]@ == lv@) by {}
            }
            j = j + 1;
        }
        proof {
            if found {
                let m = choose|m: int| 0 <= m < j && pv[m] == lv@;
                assert(pv.contains(lv@));
            } else {
                assert forall|m: int| 0 <= m < pv.len() implies pv[m] != lv@ by {}
            }
        }
        if !found {
            let mut d = chars_of(p.as_str());
            push_str(&mut d, ": ");
            push_all(&mut d, &chars_of(v.as_str()));
            decls.push(d);
            assert(decls@.map_values(|x: Vec<char>| x@) =~= d0 + seq![p@ + ": "@ + v@]);
        } else {
            assert(decls@.map_values(|x: Vec<char>| x@) =~= d0 + seq![]);
        }
    }
    assert(nv.take(new_decls.len() as int) == nv);
    let joined = join_with(&decls, "; ");
    string_of(joined.as_slice())
}

// ───────────────────────────── the pass ─────────────────────────────

/// The declarations one attribute gives, by the attribute's name (exactly as
/// asked for), the element's tag and the attribute's value.
pub open spec fn decls_for(tag: Seq<char>, attr: Seq<char>, value: Seq<char>) -> Seq<(Seq<char>, Seq<char>)> {
    if attr == "bgcolor"@ {
        seq![("background-color"@, value)]
    } else if attr == "background"@ {
        seq![("background-image"@, "url('"@ + value + "')"@)]
    } else if attr == "width"@ {
        seq![("width"@, spec_normalize_size(value))]
    } else if attr == "height"@ {
        seq![("height"@, spec_normalize_size(value))]
    } else if attr == "align"@ {
        if eq_ignore_case(tag, "table"@) {
            if eq_ignore_case(value, "center"@) {
                seq![("margin-left"@, "auto"@), ("margin-right"@, "auto"@)]
            } else {
                seq![("float"@, value)]
            }
        } else {
            seq![("text-align"@, value)]
        }
    } else if attr == "valign"@ {
        seq![("vertical-align"@, value)]
    } else {
        seq![]
    }
}

/// The declarations the named attributes of an element give, in the order
/// of the names; absent and blank attributes give none.
pub open spec fn collect_decls(tag: Seq<char>, attrs: Seq<(Seq<char>, Seq<char>)>, names: Seq<Seq<char>>) -> Seq<(Seq<char>, Seq<char>)>
    decreases names.len(),
{
    if names.len() == 0 {
        seq![]
    } else {
        collect_decls(tag, attrs, names.drop_last()) + match attr_get(attrs, names.last()) {
            Some(v) => if trim(v).len() == 0 { seq![] } else { decls_for(tag, names.last(), v) },
            None => seq![],
        }
    }
}

/// What the pass does to an element's attributes: when the named attributes
/// give declarations, they are merged into its `style`.
pub open spec fn spec_element(names: Seq<Seq<char>>, tag: Seq<char>, attrs: Seq<(Seq<char>, Seq<char>)>) -> Seq<(Seq<char>, Seq<char>)> {
    let nd = collect_decls(tag, attrs, names);
    if nd.len() == 0 {
        attrs
    } else {
        let existing = match attr_get(attrs, "style"@) {
            Some(s) => s,
            None => seq![],
        };
        attr_set(attrs, "style"@, spec_merge_styles(existing, nd))
    }
}

fn decl(p: &str, v: &Vec<char>) -> (r: (String, String))
    ensures r.0@ == p@, r.1@ == v@,
{
    (p.to_string(), string_of(v.as_slice()))
}

fn push_decls_for(out: &mut Vec<(String, String)>, tag: &Vec<char>, attr: &Vec<char>, value: &Vec<char>)
    ensures decls_view(final(out)@) == decls_view(old(out)@) + decls_for(tag@, attr@, value@),
{
    proof {
        reveal_strlit("bgcolor"); reveal_strlit("background"); reveal_strlit("width"); reveal_strlit("height");
        reveal_strlit("align"); reveal_strlit("valign"); reveal_strlit("table"); reveal_strlit("center");
    }
    let ghost o = decls_view(out@);
    if eq_str(attr, "bgcolor") {
        out.push(decl("background-color", value));
    } else if eq_str(attr, "background") {
        let mut u = lit("url('");
        push_all(&mut u, value);
        push_str(&mut u, "')");
        out.push(decl("background-image", &u));
    } else if eq_str(attr, "width") {
        out.push(decl("width", &normalize_size(value)));
    } else if eq_str(attr, "height") {
        out.push(decl("height", &normalize_size(value)));
    } else if eq_str(attr, "align") {
        if eq_ignore_ascii_case(tag, "table") {
            if eq_ignore_ascii_case(value, "center") {
                out.push(decl("margin-left", &lit("auto")));
                out.push(decl("margin-right", &lit("auto")));
            } else {
                out.push(decl("float", value));
            }
        } else {
            out.push(decl("text-align", value));
        }
    } else if eq_str(attr, "valign") {
        out.push(decl("vertical-align", value));
    }
    assert(decls_view(out@) =~= o + decls_for(tag@, attr@, value@));
}

/// Copies the named attributes of one element into its `style`.
pub fn on_element(names: &Vec<String>, el: &mut HtmlElement) -> (r: Result<(), AttributeNameError>)
    ensures
        r is Ok,
        crate::html::same_frame(*final(el), *old(el)),
        element_attrs(*final(el)) == spec_element(names@.map_values(|n: String| n@), element_tag(*old(el)), element_attrs(*old(el))),
{
    proof { reveal_strlit("style"); }
    let ghost nv = names@.map_values(|n: String| n@);
    let tag = chars_of(tag_name(el).as_str());
    let mut new_decls: Vec<(String, String)> = Vec::new();
    for k in 0..names.len()
        invariant
            nv == names@.map_values(|n: String| n@),
            tag@ == element_tag(*el),
            decls_view(new_decls@) == collect_decls(tag@, element_attrs(*el), nv.take(k as int)),
    {
        proof {
            assert(nv.take(k + 1).drop_last() == nv.take(k as int));
            assert(nv.take(k + 1).last() == names@[k as int]@);
        }
        let ghost before = decls_view(new_decls@);
        if let Some(value) = get_attribute(el, names[k].as_str()) {
            let vv = chars_of(value.as_str());
            let t = trimmed(&vv);
            if t.len() > 0 {
                let an = chars_of(names[k].as_str());
                push_decls_for(&mut new_decls, &tag, &an, &vv);
            } else {
                assert(decls_view(new_decls@) =~= before + Seq::<(Seq<char>, Seq<char>)>::empty());
            }
        } else {
            assert(decls_view(new_decls@) =~= before + Seq::<(Seq<char>, Seq<char>)>::empty());
        }
    }
    assert(nv.take(names.len() as int) == nv);
    if new_decls.len() == 0 {
        return Ok(());
    }
    let existing = match get_attribute(el, "style") {
        Some(s) => s,
        None => String::new(),
    };
    let merged = merge_styles(existing.as_str(), &new_decls);
    set_attribute(el, "style", merged.as_str())
}

pub open spec fn names_view(attributes: Seq<&str>) -> Seq<Seq<char>> {
    attributes.map_values(|s: &str| s@)
}

/// Copies the named presentational attributes of every element into its
/// `style`; with no names the document comes back unchanged.
pub fn process(html: &str, attributes: &[&str]) -> (r: Result<String, Error>)
    ensures
        r is Ok <==> (attributes@.len() == 0
            || rewrite_outcome(html@, "style"@, true, RuleView::AttributeToStyle(names_view(attributes@))) is Ok),
        r matches Ok(s) ==> if attributes@.len() == 0 {
            s@ == html@
        } else {
            rewrite_outcome(html@, "style"@, true, RuleView::AttributeToStyle(names_view(attributes@)))->Ok_0.0 == s@
        },
        r matches Err(e) ==> (e matches Error::HtmlRewrite(m) && rewrite_outcome(html@, "style"@, true, RuleView::AttributeToStyle(names_view(attributes@))) matches Err(o) && o == m@),
{
    proof { reveal_strlit("style"); }
    if attributes.len() == 0 {
        return Ok(html.to_string());
    }
    let mut names: Vec<String> = Vec::new();
    for k in 0..attributes.len()
        invariant names@.map_values(|n: String| n@) == names_view(attributes@).take(k as int),
    {
        let ghost n0 = names@.map_values(|n: String| n@);
        names.push(attributes[k].to_string());
        assert(names_view(attributes@).take(k + 1) == names_view(attributes@).take(k as int).push(attributes@[k as int]@));
        assert(names@.map_values(|n: String| n@) =~= n0.push(attributes@[k as int]@));
    }
    assert(names_view(attributes@).take(attributes@.len() as int) == names_view(attributes@));
    let mut log = RewriteLog::new();
    let rule = HtmlRule::AttributeToStyle(names);
    match rewrite(html, "style", true, &rule, &mut log) {
        Ok(s) => Ok(s),
        Err(m) => Err(Error::HtmlRewrite(m)),
    }
}

} // verus!
