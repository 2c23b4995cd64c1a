//! `<outlook>` and `<not-outlook>` tags become MSO conditional comments.
//!
//! - `<outlook>X</outlook>` → `<!--[if mso]>X<![endif]-->`
//! - `<outlook only="2013">X</outlook>` → `<!--[if mso 15]>X<![endif]-->`
//! - `<outlook only="2013,2016">X</outlook>` → `<!--[if (mso 15)|(mso 16)]>X<![endif]-->`
//! - `<outlook not="2013">X</outlook>` → `<!--[if !mso 15]>X<![endif]-->`
//! - `<outlook lt="2013">X</outlook>` → `<!--[if lt mso 15]>X<![endif]-->` (also `lte`, `gt`, `gte`)
//! - `<not-outlook>X</not-outlook>` → `<!--[if !mso]><!-->X<!--<![endif]-->`
//!
//! Outlook version → mso version: 2003 → 9, 2007 → 12, 2010 → 14,
//! 2013 → 15, 2016 → 16, 2019 → 16.
use vstd::prelude::*;
use crate::error::Error;
use crate::text::{
    chars_of, contains, eq_str, find, find_char, find_from, find_in, is_whitespace, is_ws, join,
    join_with, lemma_find_from_facts, lemma_find_suffix, lit, push_all, push_range, push_str,
    skip_ws, slice, split_char, split_on, starts_with, starts_with_at, string_of, trim, trim_start,
    trimmed,
};

verus! {

broadcast use vstd::string::group_string_axioms;

// ───────────────────────────── specification ─────────────────────────────

/// The mso version number of an Outlook version name; other text is kept (trimmed).
pub open spec fn spec_version_to_mso(v: Seq<char>) -> Seq<char> {
    let t = trim(v);
    if t == "2003"@ {
        "9"@
    } else if t == "2007"@ {
        "12"@
    } else if t == "2010"@ {
        "14"@
    } else if t == "2013"@ {
        "15"@
    } else if t == "2016"@ || t == "2019"@ {
        "16"@
    } else {
        t
    }
}

/// The value of attribute `name` in the text of an opening tag, when written
/// `name="value"` or `name='value'` at a word boundary, searching from `from`.
pub open spec fn spec_parse_attr_from(attrs: Seq<char>, name: Seq<char>, from: int) -> Option<Seq<char>>
    decreases attrs.len() + 1 - from,
{
    if name.len() == 0 || from < 0 || from > attrs.len() {
        None
    } else {
        match find_from(attrs, name, from) {
            None => None,
            Some(idx) => {
                proof { lemma_find_from_facts(attrs, name, from); }
                let prev_ok = idx == 0 || is_ws(attrs[idx - 1]);
                let after_name = attrs.subrange(idx + name.len(), attrs.len() as int);
                let next_ok = after_name.len() > 0 && (after_name[0] == '=' || is_ws(after_name[0]));
                if !prev_ok || !next_ok {
                    spec_parse_attr_from(attrs, name, idx + name.len())
                } else {
                    let after = trim_start(after_name);
                    if !(after.len() > 0 && after[0] == '=') {
                        spec_parse_attr_from(attrs, name, idx + name.len())
                    } else {
                        let after = trim_start(after.drop_first());
                        if after.len() == 0 || (after[0] != '"' && after[0] != '\'') {
                            None
                        } else {
                            let rest = after.drop_first();
                            match find(rest, seq![after[0]]) {
                                Some(end) => Some(rest.subrange(0, end)),
                                None => None,
                            }
                        }
                    }
                }
            },
        }
    }
}

pub open spec fn spec_parse_attr(attrs: Seq<char>, name: Seq<char>) -> Option<Seq<char>> {
    spec_parse_attr_from(attrs, name, 0)
}

/// Condition for `only="..."`: raw mso syntax passes through; one version gives
/// `mso N`, several give `(mso N)|(mso M)`.
pub open spec fn spec_build_only_condition(value: Seq<char>) -> Seq<char> {
    let t = trim(value);
    if starts_with(t, "mso"@) || contains(t, "mso"@) {
        t
    } else {
        let vs = split_char(t, ',').map_values(|v: Seq<char>| spec_version_to_mso(v));
        if vs.len() == 1 {
            "mso "@ + vs[0]
        } else {
            join(vs.map_values(|v: Seq<char>| "(mso "@ + v + ")"@), "|"@)
        }
    }
}

/// Condition for `not="..."`: one version gives `!mso N`, several give `!((mso N)|(mso M))`.
pub open spec fn spec_build_not_condition(value: Seq<char>) -> Seq<char> {
    let vs = split_char(trim(value), ',').map_values(|v: Seq<char>| spec_version_to_mso(v));
    if vs.len() == 1 {
        "!mso "@ + vs[0]
    } else {
        "!("@ + join(vs.map_values(|v: Seq<char>| "(mso "@ + v + ")"@), "|"@) + ")"@
    }
}

/// The condition for an `<outlook ...>` tag: the attributes `only`, `not`,
/// `lt`, `lte`, `gt`, `gte` are tried in that order; without any, plain `mso`.
pub open spec fn spec_build_condition(attrs: Seq<char>) -> Seq<char> {
    if let Some(v) = spec_parse_attr(attrs, "only"@) {
        spec_build_only_condition(v)
    } else if let Some(v) = spec_parse_attr(attrs, "not"@) {
        spec_build_not_condition(v)
    } else if let Some(v) = spec_parse_attr(attrs, "lt"@) {
        "lt mso "@ + spec_version_to_mso(v)
    } else if let Some(v) = spec_parse_attr(attrs, "lte"@) {
        "lte mso "@ + spec_version_to_mso(v)
    } else if let Some(v) = spec_parse_attr(attrs, "gt"@) {
        "gt mso "@ + spec_version_to_mso(v)
    } else if let Some(v) = spec_parse_attr(attrs, "gte"@) {
        "gte mso "@ + spec_version_to_mso(v)
    } else {
        "mso"@
    }
}

/// Which tag is being converted.
#[derive(Clone, Copy, PartialEq, Eq, Structural)]
pub enum OutlookTag {
    /// `<outlook>`: content shown only to the mso versions of its condition.
    Outlook,
    /// `<not-outlook>`: content hidden from every mso version.
    NotOutlook,
}

pub open spec fn tag_name(t: OutlookTag) -> Seq<char> {
    match t {
        OutlookTag::Outlook => "outlook"@,
        OutlookTag::NotOutlook => "not-outlook"@,
    }
}

pub open spec fn open_replacement(t: OutlookTag, attrs: Seq<char>) -> Seq<char> {
    match t {
        OutlookTag::Outlook => "<!--[if "@ + spec_build_condition(attrs) + "]>"@,
        OutlookTag::NotOutlook => "<!--[if !mso]><!-->"@,
    }
}

pub open spec fn close_replacement(t: OutlookTag) -> Seq<char> {
    match t {
        OutlookTag::Outlook => "<![endif]-->"@,
        OutlookTag::NotOutlook => "<!--<![endif]-->"@,
    }
}

/// The character after `<tag` that makes it this tag and not a longer name.
pub open spec fn ends_tag_name(c: char) -> bool {
    c == '>' || c == ' ' || c == '/' || c == '\t' || c == '\n'
}

/// Every `<tag ...>inner</tag>` of `r`, scanning left to right, becomes
/// `open inner close`. An opening `<tag` followed by another name character is
/// left alone; an opening tag with no `>` or no closing tag ends the scan and
/// leaves the rest as it is.
#[verifier::opaque]
pub open spec fn spec_transform_tag(r: Seq<char>, t: OutlookTag) -> Seq<char>
    decreases r.len(),
{
    let open = seq!['<'] + tag_name(t);
    let close = seq!['<', '/'] + tag_name(t) + seq!['>'];
    match find(r, open) {
        None => r,
        Some(start) => {
            proof { lemma_find_from_facts(r, open, 0); }
            if start < 0 || start + open.len() > r.len() {
                r
            } else {
                let ap = r.subrange(start + open.len(), r.len() as int);
                if !(ap.len() > 0 && ends_tag_name(ap[0])) {
                    r.subrange(0, start) + open + spec_transform_tag(ap, t)
                } else {
                    match find(ap, seq!['>']) {
                        None => r,
                        Some(oe) => {
                            if oe < 0 || oe >= ap.len() {
                                r
                            } else {
                                let ao = ap.subrange(oe + 1, ap.len() as int);
                                match find(ao, close) {
                                    None => r,
                                    Some(cp) => {
                                        if cp < 0 || cp + close.len() > ao.len() {
                                            r
                                        } else {
                                            r.subrange(0, start) + open_replacement(t, ap.subrange(0, oe))
                                                + ao.subrange(0, cp) + close_replacement(t)
                                                + spec_transform_tag(ao.subrange(cp + close.len(), ao.len() as int), t)
                                        }
                                    },
                                }
                            }
                        },
                    }
                }
            }
        },
    }
}

/// The whole transformation: `<not-outlook>` first, then `<outlook>`.
pub open spec fn spec_process(html: Seq<char>) -> Seq<char> {
    spec_transform_tag(spec_transform_tag(html, OutlookTag::NotOutlook), OutlookTag::Outlook)
}

/// A document with neither `<outlook` nor `<not-outlook` in it comes back unchanged.
pub proof fn lemma_without_tags_unchanged(html: Seq<char>)
    requires
        find(html, "<outlook"@) is None,
        find(html, "<not-outlook"@) is None,
    ensures
        spec_process(html) == html,
{
    reveal(spec_transform_tag);
    reveal_strlit("<outlook");
    reveal_strlit("<not-outlook");
    reveal_strlit("outlook");
    reveal_strlit("not-outlook");
    assert(seq!['<'] + tag_name(OutlookTag::Outlook) =~= "<outlook"@);
    assert(seq!['<'] + tag_name(OutlookTag::NotOutlook) =~= "<not-outlook"@);
}

// ───────────────────────────── implementation ─────────────────────────────

/// Converts `<outlook>` and `<not-outlook>` tags to MSO conditional comments.
/// This never fails.
pub fn process(html: &str) -> (r: Result<String, Error>)
    ensures r matches Ok(s) && s@ == spec_process(html@),
{
    let v = chars_of(html);
    let a = transform_tag(&v, OutlookTag::NotOutlook);
    let b = transform_tag(&a, OutlookTag::Outlook);
    Ok(string_of(b.as_slice()))
}

/// Maps an Outlook version name to its MSO version number; other text is
/// returned trimmed.
pub fn version_to_mso(version: &Vec<char>) -> (r: Vec<char>)
    ensures r@ == spec_version_to_mso(version@),
{
    let t = trimmed(version);
    if eq_str(&t, "2003") {
        lit("9")
    } else if eq_str(&t, "2007") {
        lit("12")
    } else if eq_str(&t, "2010") {
        lit("14")
    } else if eq_str(&t, "2013") {
        lit("15")
    } else if eq_str(&t, "2016") || eq_str(&t, "2019") {
        lit("16")
    } else {
        t
    }
}

/// The value of the attribute `name` in the text of an opening tag.
/// `parse_attr(r#" only="mso 9""#, "only")` is `Some("mso 9")`; `lt` does not
/// match `lte`.
pub fn parse_attr(attrs: &Vec<char>, name: &str) -> (r: Option<Vec<char>>)
    requires name@.len() > 0,
    ensures
        r matches Some(v) ==> spec_parse_attr(attrs@, name@) == Some(v@),
        r is None ==> spec_parse_attr(attrs@, name@) is None,
{
    let nv = chars_of(name);
    let mut search_from: usize = 0;
    while search_from <= attrs.len()
        invariant
            nv@ == name@,
            nv@.len() > 0,
            search_from <= attrs.len() + 1,
            spec_parse_attr_from(attrs@, name@, search_from as int) == spec_parse_attr(attrs@, name@),
        decreases attrs.len() + 1 - search_from,
    {
        proof { lemma_find_from_facts(attrs@, name@, search_from as int); }
        let idx = match find_in(attrs, &nv, search_from) {
            Some(i) => i,
            None => return None,
        };
        let prev_ok = idx == 0 || is_whitespace(attrs[idx - 1]);
        let an = idx + nv.len();
        let next_ok = an < attrs.len() && (attrs[an] == '=' || is_whitespace(attrs[an]));
        proof {
            let after_name = attrs@.subrange(an as int, attrs@.len() as int);
            if an < attrs.len() {
                assert(after_name[0] == attrs@[an as int]);
            }
        }
        if !prev_ok || !next_ok {
            search_from = an;
        } else {
            let p = skip_ws(attrs, an, attrs.len());
            if !(p < attrs.len() && attrs[p] == '=') {
                search_from = an;
            } else {
                let q = skip_ws(attrs, p + 1, attrs.len());
                proof {
                    let after = attrs@.subrange(p as int, attrs@.len() as int);
                    assert(after.drop_first() == attrs@.subrange(p + 1, attrs@.len() as int));
                }
                if q >= attrs.len() {
                    return None;
                }
                let quote = attrs[q];
                if quote != '"' && quote != '\'' {
                    return None;
                }
                proof {
                    let after = attrs@.subrange(q as int, attrs@.len() as int);
                    assert(after.drop_first() == attrs@.subrange(q + 1, attrs@.len() as int));
                    lemma_find_suffix(attrs@, seq![quote], q + 1);
                    lemma_find_from_facts(attrs@, seq![quote], q + 1);
                }
                match find_char(attrs, quote, q + 1) {
                    Some(end) => {
                        proof {
                            assert(attrs@.subrange(q + 1, attrs@.len() as int).subrange(0, end - (q + 1))
                                == attrs@.subrange(q + 1, end as int));
                        }
                        return Some(slice(attrs, q + 1, end));
                    },
                    None => return None,
                }
            }
        }
    }
    None
}

/// `parse_attr(attrs, "only")`.
pub fn parse_only_attr(attrs: &str) -> (r: Option<String>)
    ensures
        r matches Some(v) ==> spec_parse_attr(attrs@, "only"@) == Some(v@),
        r is None ==> spec_parse_attr(attrs@, "only"@) is None,
{
    proof { reveal_strlit("only"); }
    let a = chars_of(attrs);
    match parse_attr(&a, "only") {
        Some(v) => Some(string_of(v.as_slice())),
        None => None,
    }
}

/// Applies `version_to_mso` to every comma-separated piece of `value`.
fn mso_versions(value: &Vec<char>) -> (r: Vec<Vec<char>>)
    ensures
        r@.len() == split_char(value@, ',').len(),
        forall|k: int| 0 <= k < r@.len() ==> #[trigger] r@[k]@
            == spec_version_to_mso(split_char(value@, ',')[k]),
{
    let pieces = split_on(value, ',');
    let mut r: Vec<Vec<char>> = Vec::new();
    for i in 0..pieces.len()
        invariant
            pieces@.len() == split_char(value@, ',').len(),
            forall|k: int| 0 <= k < pieces@.len() ==> #[trigger] pieces@[k]@ == split_char(value@, ',')[k],
            r@.len() == i,
            forall|k: int| 0 <= k < i ==> #[trigger] r@[k]@ == spec_version_to_mso(split_char(value@, ',')[k]),
    {
        r.push(version_to_mso(&pieces[i]));
    }
    r
}

/// `(mso v1)|(mso v2)|...`.
fn mso_alternatives(vs: &Vec<Vec<char>>) -> (r: Vec<char>)
    ensures
        r@ == join(vs@.map_values(|p: Vec<char>| p@).map_values(|v: Seq<char>| "(mso "@ + v + ")"@), "|"@),
{
    let mut parts: Vec<Vec<char>> = Vec::new();
    for i in 0..vs.len()
        invariant
            parts@.len() == i,
            forall|k: int| 0 <= k < i ==> #[trigger] parts@[k]@ == "(mso "@ + vs@[k]@ + ")"@,
    {
        let mut p = lit("(mso ");
        push_all(&mut p, &vs[i]);
        push_str(&mut p, ")");
        parts.push(p);
    }
    let r = join_with(&parts, "|");
    assert(parts@.map_values(|p: Vec<char>| p@)
        =~= vs@.map_values(|p: Vec<char>| p@).map_values(|v: Seq<char>| "(mso "@ + v + ")"@));
    r
}

/// Condition for `only="..."`.
pub fn build_only_condition(value: &Vec<char>) -> (r: Vec<char>)
    ensures r@ == spec_build_only_condition(value@),
{
    let t = trimmed(value);
    let mso = lit("mso");
    let has_mso = find_in(&t, &mso, 0).is_some();
    if starts_with_at(&t, 0, "mso") || has_mso {
        return t;
    }
    let versions = mso_versions(&t);
    let ghost vs = split_char(t@, ',').map_values(|v: Seq<char>| spec_version_to_mso(v));
    assert(versions@.map_values(|p: Vec<char>| p@) =~= vs);
    if versions.len() == 1 {
        let mut r = lit("mso ");
        push_all(&mut r, &versions[0]);
        r
    } else {
        mso_alternatives(&versions)
    }
}

/// Condition for `not="..."`.
pub fn build_not_condition(value: &Vec<char>) -> (r: Vec<char>)
    ensures r@ == spec_build_not_condition(value@),
{
    let t = trimmed(value);
    let versions = mso_versions(&t);
    let ghost vs = split_char(t@, ',').map_values(|v: Seq<char>| spec_version_to_mso(v));
    assert(versions@.map_values(|p: Vec<char>| p@) =~= vs);
    if versions.len() == 1 {
        let mut r = lit("!mso ");
        push_all(&mut r, &versions[0]);
        r
    } else {
        let mut r = lit("!(");
        let alts = mso_alternatives(&versions);
        push_all(&mut r, &alts);
        push_str(&mut r, ")");
        r
    }
}

/// `prefix + version_to_mso(v)`.
fn comparison(prefix: &str, v: &Vec<char>) -> (r: Vec<char>)
    ensures r@ == prefix@ + spec_version_to_mso(v@),
{
    let mut r = lit(prefix);
    let m = version_to_mso(v);
    push_all(&mut r, &m);
    r
}

/// The conditional expression for an `<outlook ...>` tag's attribute text.
pub fn build_condition(attrs: &Vec<char>) -> (r: Vec<char>)
    ensures r@ == spec_build_condition(attrs@),
{
    proof {
        reveal_strlit("only");
        reveal_strlit("not");
        reveal_strlit("lte");
        reveal_strlit("gte");
        reveal_strlit("lt");
        reveal_strlit("gt");
    }
    if let Some(v) = parse_attr(attrs, "only") {
        return build_only_condition(&v);
    }
    if let Some(v) = parse_attr(attrs, "not") {
        return build_not_condition(&v);
    }
    if let Some(v) = parse_attr(attrs, "lt") {
        return comparison("lt mso ", &v);
    }
    if let Some(v) = parse_attr(attrs, "lte") {
        return comparison("lte mso ", &v);
    }
    if let Some(v) = parse_attr(attrs, "gt") {
        return comparison("gt mso ", &v);
    }
    if let Some(v) = parse_attr(attrs, "gte") {
        return comparison("gte mso ", &v);
    }
    lit("mso")
}

/// One step of `spec_transform_tag` on the suffix `h[pos..]`, in terms of positions in `h`.
proof fn lemma_transform_unfold(h: Seq<char>, pos: int, t: OutlookTag)
    requires 0 <= pos <= h.len(),
    ensures ({
        let r = h.subrange(pos, h.len() as int);
        let open = seq!['<'] + tag_name(t);
        let close = seq!['<', '/'] + tag_name(t) + seq!['>'];
        spec_transform_tag(r, t) == match find_from(h, open, pos) {
            None => r,
            Some(start) => {
                let ap = start + open.len();
                if !(ap < h.len() && ends_tag_name(h[ap])) {
                    h.subrange(pos, start) + open + spec_transform_tag(h.subrange(ap, h.len() as int), t)
                } else {
                    match find_from(h, seq!['>'], ap) {
                        None => r,
                        Some(oe) => match find_from(h, close, oe + 1) {
                            None => r,
                            Some(cp) => h.subrange(pos, start) + open_replacement(t, h.subrange(ap, oe))
                                + h.subrange(oe + 1, cp) + close_replacement(t)
                                + spec_transform_tag(h.subrange(cp + close.len(), h.len() as int), t),
                        },
                    }
                }
            },
        }
    }),
{
    reveal(spec_transform_tag);
    let r = h.subrange(pos, h.len() as int);
    let open = seq!['<'] + tag_name(t);
    let close = seq!['<', '/'] + tag_name(t) + seq!['>'];
    lemma_find_suffix(h, open, pos);
    lemma_find_from_facts(h, open, pos);
    if let Some(start) = find_from(h, open, pos) {
        let ap = start + open.len();
        let apv = r.subrange(start - pos + open.len(), r.len() as int);
        assert(apv == h.subrange(ap, h.len() as int));
        assert(r.subrange(0, start - pos) == h.subrange(pos, start));
        if ap < h.len() && ends_tag_name(h[ap]) {
            assert(apv[0] == h[ap]);
            lemma_find_suffix(h, seq!['>'], ap);
            lemma_find_from_facts(h, seq!['>'], ap);
            if let Some(oe) = find_from(h, seq!['>'], ap) {
                let aov = apv.subrange(oe - ap + 1, apv.len() as int);
                assert(aov == h.subrange(oe + 1, h.len() as int));
                assert(apv.subrange(0, oe - ap) == h.subrange(ap, oe));
                lemma_find_suffix(h, close, oe + 1);
                lemma_find_from_facts(h, close, oe + 1);
                if let Some(cp) = find_from(h, close, oe + 1) {
                    assert(aov.subrange(0, cp - (oe + 1)) == h.subrange(oe + 1, cp));
                    assert(aov.subrange(cp - (oe + 1) + close.len(), aov.len() as int)
                        == h.subrange(cp + close.len(), h.len() as int));
                }
            }
        } else {
            if ap < h.len() {
                assert(apv[0] == h[ap]);
            }
        }
    }
}

/// Converts every `<tag ...>inner</tag>` of `html`.
#[verifier::rlimit(60)]
pub fn transform_tag(html: &Vec<char>, t: OutlookTag) -> (r: Vec<char>)
    ensures r@ == spec_transform_tag(html@, t),
{
    let name = match t {
        OutlookTag::Outlook => lit("outlook"),
        OutlookTag::NotOutlook => lit("not-outlook"),
    };
    let mut open = lit("<");
    push_all(&mut open, &name);
    let mut close = lit("</");
    push_all(&mut close, &name);
    push_str(&mut close, ">");
    proof {
        reveal_strlit("<");
        reveal_strlit("</");
        reveal_strlit(">");
        assert(open@ =~= seq!['<'] + tag_name(t));
        assert(close@ =~= seq!['<', '/'] + tag_name(t) + seq!['>']);
    }
    let mut result: Vec<char> = Vec::new();
    let mut pos: usize = 0;
    assert(html@.subrange(0, html@.len() as int) == html@);
    loop
        invariant
            pos <= html.len(),
            name@ == tag_name(t),
            open@ == seq!['<'] + tag_name(t),
            close@ == seq!['<', '/'] + tag_name(t) + seq!['>'],
            result@ + spec_transform_tag(html@.subrange(pos as int, html@.len() as int), t)
                == spec_transform_tag(html@, t),
        decreases html.len() - pos,
    {
        proof { lemma_transform_unfold(html@, pos as int, t); }
        let start = match find_in(html, &open, pos) {
            Some(s) => s,
            None => {
                push_range(&mut result, html, pos, html.len());
                return result;
            },
        };
        proof { lemma_find_from_facts(html@, open@, pos as int); }
        let ap = start + open.len();
        let valid = ap < html.len() && (html[ap] == '>' || html[ap] == ' ' || html[ap] == '/'
            || html[ap] == '\t' || html[ap] == '\n');
        if !valid {
            proof { lemma_find_from_facts(html@, open@, pos as int); }
            push_range(&mut result, html, pos, start);
            push_all(&mut result, &open);
            pos = ap;
        } else {
            let oe = match find_char(html, '>', ap) {
                Some(e) => e,
                None => {
                    push_range(&mut result, html, pos, html.len());
                    return result;
                },
            };
            proof { lemma_find_from_facts(html@, seq!['>'], ap as int); }
            let ao = oe + 1;
            let cp = match find_in(html, &close, ao) {
                Some(c) => c,
                None => {
                    push_range(&mut result, html, pos, html.len());
                    return result;
                },
            };
            proof { lemma_find_from_facts(html@, close@, ao as int); }
            proof { lemma_find_from_facts(html@, open@, pos as int); }
            push_range(&mut result, html, pos, start);
            match t {
                OutlookTag::Outlook => {
                    let attrs = slice(html, ap, oe);
                    let cond = build_condition(&attrs);
                    push_str(&mut result, "<!--[if ");
                    push_all(&mut result, &cond);
                    push_str(&mut result, "]>");
                },
                OutlookTag::NotOutlook => {
                    push_str(&mut result, "<!--[if !mso]><!-->");
                },
            }
            push_range(&mut result, html, ao, cp);
            match t {
                OutlookTag::Outlook => push_str(&mut result, "<![endif]-->"),
                OutlookTag::NotOutlook => push_str(&mut result, "<!--<![endif]-->"),
            }
            pos = cp + close.len();
        }
    }
}

} // verus!
