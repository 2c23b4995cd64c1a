//! Resolution of relative URLs against a base URL.
//!
//! Relative URLs (not absolute, not protocol-relative, not a fragment, a
//! `mailto:`, `tel:` or `data:` URL, nor a template expression) are joined
//! to the base, whose trailing slashes are dropped: in the URL attributes of
//! links, images, videos, sources, stylesheets and table backgrounds, in
//! each candidate of an image's or source's `srcset`, and in the CSS
//! `url(...)` values of inline styles and `<style>` blocks.
use vstd::prelude::*;
use crate::error::Error;
use crate::html::{attr_get, attr_set, element_attrs, element_tag, get_attribute, set_attribute, tag_name, HtmlElement};
use crate::html::{chunk_replacement, chunk_string, chunk_text, replace_chunk};
use crate::html::{lemma_attr_set_keeps_others, lemma_attr_set_then_get};
use crate::rewrite::{rewrite, rewrite_outcome, HtmlRule, RewriteLog, RuleView};
use crate::text::{
    ascii_lower, is_alnum, is_alpha, is_ascii_alphabetic, is_ascii_alphanumeric,
    chars_of, contains, eq_str, find, find_char, find_in, join, join_with, lemma_find_from_facts, lemma_find_suffix,
    lemma_trim_start_sub, lemma_word_len, lit, matches_at, push_all, push_range, push_str, same, skip_ws, slice,
    split_char, split_on, starts_with, string_of, trim, trimmed, word_len, ws_run_end,
};
use lol_html::errors::AttributeNameError;
use lol_html::html_content::TextChunk;

verus! {

broadcast use vstd::string::group_string_axioms;

// ───────────────────────────── URLs ─────────────────────────────

/// `s` without its trailing slashes.
pub open spec fn trim_end_slashes(s: Seq<char>) -> Seq<char>
    decreases s.len(),
{
    if s.len() > 0 && s.last() == '/' { trim_end_slashes(s.drop_last()) } else { s }
}

/// A character of a URL scheme after its first letter.
pub open spec fn scheme_char(c: char) -> bool {
    is_alnum(c) || c == '+' || c == '-' || c == '.'
}

/// The end of the scheme characters that start at `i`.
pub open spec fn scheme_end(t: Seq<char>, i: int) -> int
    decreases t.len() - i,
{
    if 0 <= i < t.len() && scheme_char(t[i]) { scheme_end(t, i + 1) } else { i }
}

/// `t` starts with a protocol: a letter, scheme characters, then `:`.
pub open spec fn has_protocol(t: Seq<char>) -> bool {
    t.len() > 0 && is_alpha(t[0]) && scheme_end(t, 1) < t.len() && t[scheme_end(t, 1)] == ':'
}

/// A URL that is resolved against the base: once trimmed, not empty, with no
/// `://`, no protocol (`mailto:`, `javascript:`, ...), and not starting with
/// `//`, `#` or `{`.
pub open spec fn spec_is_relative(url: Seq<char>) -> bool {
    let t = trim(url);
    &&& t.len() > 0
    &&& !contains(t, "://"@)
    &&& !has_protocol(t)
    &&& !starts_with(t, "//"@)
    &&& !starts_with(t, "#"@)
    &&& !starts_with(t, "mailto:"@)
    &&& !starts_with(t, "tel:"@)
    &&& !starts_with(t, "data:"@)
    &&& !starts_with(t, "{"@)
}

fn protocol_exec(t: &Vec<char>) -> (r: bool)
    ensures r == has_protocol(t@),
{
    if t.len() == 0 || !is_ascii_alphabetic(t[0]) {
        return false;
    }
    let mut k: usize = 1;
    while k < t.len() && (is_ascii_alphanumeric(t[k]) || t[k] == '+' || t[k] == '-' || t[k] == '.')
        invariant
            1 <= k <= t.len(),
            scheme_end(t@, 1) == scheme_end(t@, k as int),
        decreases t.len() - k,
    {
        k = k + 1;
    }
    k < t.len() && t[k] == ':'
}

/// Whether a URL is resolved against the base (see `spec_is_relative`).
pub fn is_relative(url: &str) -> (r: bool)
    ensures r == spec_is_relative(url@),
{
    let v = chars_of(url);
    let t = trimmed(&v);
    let sep = lit("://");
    t.len() > 0
        && find_in(&t, &sep, 0).is_none()
        && !protocol_exec(&t)
        && !crate::text::starts_with_at(&t, 0, "//")
        && !crate::text::starts_with_at(&t, 0, "#")
        && !crate::text::starts_with_at(&t, 0, "mailto:")
        && !crate::text::starts_with_at(&t, 0, "tel:")
        && !crate::text::starts_with_at(&t, 0, "data:")
        && !crate::text::starts_with_at(&t, 0, "{")
}

/// A relative URL joined to the base: directly when it starts with `/`,
/// else with a `/` between.
pub open spec fn resolve_url(base: Seq<char>, val: Seq<char>) -> Seq<char> {
    if starts_with(val, "/"@) { base + val } else { base + "/"@ + val }
}

fn resolve_url_exec(base: &Vec<char>, val: &Vec<char>) -> (r: Vec<char>)
    ensures r@ == resolve_url(base@, val@),
{
    proof { reveal_strlit("/"); }
    let mut out = slice(base, 0, base.len());
    assert(base@.subrange(0, base@.len() as int) == base@);
    if !crate::text::starts_with_at(val, 0, "/") {
        push_str(&mut out, "/");
    }
    push_all(&mut out, val);
    out
}

// ───────────────────────────── srcset ─────────────────────────────

/// One `srcset` candidate with its URL (the first word) resolved when
/// relative; the white space and descriptor around it are kept.
pub open spec fn candidate_resolve(base: Seq<char>, c: Seq<char>) -> Seq<char> {
    let a = ws_run_end(c, 0);
    let b = a + word_len(c, a);
    let url = c.subrange(a, b);
    if spec_is_relative(url) { c.subrange(0, a) + resolve_url(base, url) + c.subrange(b, c.len() as int) } else { c }
}

/// A `srcset` with every candidate's URL resolved (candidates are the pieces between commas).
pub open spec fn srcset_resolve(base: Seq<char>, v: Seq<char>) -> Seq<char> {
    join(split_char(v, ',').map_values(|c: Seq<char>| candidate_resolve(base, c)), ","@)
}

fn candidate_exec(base: &Vec<char>, c: &Vec<char>) -> (r: Vec<char>)
    ensures r@ == candidate_resolve(base@, c@),
{
    let a = skip_ws(c, 0, c.len());
    proof {
        lemma_trim_start_sub(c@, 0);
        assert(c@.subrange(0, c@.len() as int) == c@);
        lemma_word_len(c@, ws_run_end(c@, 0));
    }
    assert(a as int == ws_run_end(c@, 0)) by {
        assert(c@.subrange(ws_run_end(c@, 0), c@.len() as int) == c@.subrange(a as int, c@.len() as int));
        assert(c@.subrange(ws_run_end(c@, 0), c@.len() as int).len() == c@.subrange(a as int, c@.len() as int).len());
    }
    let mut b = a;
    while b < c.len() && !crate::text::is_whitespace(c[b])
        invariant
            a <= b <= c.len(),
            word_len(c@, a as int) == (b - a) + word_len(c@, b as int),
        decreases c.len() - b,
    {
        b = b + 1;
    }
    assert(word_len(c@, b as int) == 0);
    let url = slice(c, a, b);
    let us = string_of(url.as_slice());
    if is_relative(us.as_str()) {
        let mut out = slice(c, 0, a);
        let resolved = resolve_url_exec(base, &url);
        push_all(&mut out, &resolved);
        push_range(&mut out, c, b, c.len());
        out
    } else {
        assert(c@.subrange(0, c@.len() as int) == c@);
        slice(c, 0, c.len())
    }
}

fn srcset_exec(base: &Vec<char>, v: &Vec<char>) -> (r: Vec<char>)
    ensures r@ == srcset_resolve(base@, v@),
{
    let pieces = split_on(v, ',');
    let ghost ps = split_char(v@, ',');
    let ghost target = ps.map_values(|c: Seq<char>| candidate_resolve(base@, c));
    let mut out: Vec<Vec<char>> = Vec::new();
    for k in 0..pieces.len()
        invariant
            ps == split_char(v@, ','),
            target == ps.map_values(|c: Seq<char>| candidate_resolve(base@, c)),
            pieces@.len() == ps.len(),
            forall|j: int| 0 <= j < pieces@.len() ==> #[trigger] pieces@[j]@ == ps[j],
            out@.map_values(|x: Vec<char>| x@) == target.take(k as int),
    {
        let ghost before = out@.map_values(|x: Vec<char>| x@);
        out.push(candidate_exec(base, &pieces[k]));
        assert(target.take(k + 1) == target.take(k as int).push(target[k as int]));
        assert(out@.map_values(|x: Vec<char>| x@) =~= before.push(target[k as int]));
    }
    assert(target.take(pieces.len() as int) == target);
    join_with(&out, ",")
}

// ───────────────────────────── CSS url() ─────────────────────────────

/// The body of one `url(...)`: its URL, trimmed and unquoted, resolved when
/// relative and written back with its quotes; the body unchanged otherwise.
pub open spec fn url_inner(base: Seq<char>, inner: Seq<char>) -> Seq<char> {
    let t = trim(inner);
    let quoted = t.len() >= 2 && (t[0] == '\'' || t[0] == '"') && t.last() == t[0];
    let u = if quoted { t.subrange(1, t.len() - 1) } else { t };
    let q: Seq<char> = if quoted { seq![t[0]] } else { seq![] };
    if spec_is_relative(u) { q + resolve_url(base, u) + q } else { inner }
}

/// Every `url(...)` of a CSS text with its URL resolved; the body ends at
/// the first `)`. A `url(` that is never closed is kept and the scan goes on after it.
#[verifier::opaque]
pub open spec fn url_scan(base: Seq<char>, r: Seq<char>) -> Seq<char>
    decreases r.len(),
{
    match find(r, "url("@) {
        None => r,
        Some(idx) => {
            proof { lemma_find_from_facts(r, "url("@, 0); }
            if 0 <= idx && idx + 4 <= r.len() {
                let after = r.subrange(idx + 4, r.len() as int);
                proof { lemma_find_from_facts(after, seq![')'], 0); }
                r.subrange(0, idx) + match find(after, seq![')']) {
                    None => "url("@ + url_scan(base, after),
                    Some(c) => if 0 <= c < after.len() {
                        "url("@ + url_inner(base, after.subrange(0, c)) + ")"@
                            + url_scan(base, after.subrange(c + 1, after.len() as int))
                    } else {
                        r
                    },
                }
            } else {
                r
            }
        },
    }
}

proof fn lemma_url_scan_step(base: Seq<char>, r: Seq<char>, idx: int)
    requires find(r, "url("@) == Some(idx),
    ensures
        0 <= idx && idx + 4 <= r.len(),
        ({
            let after = r.subrange(idx + 4, r.len() as int);
            url_scan(base, r) == r.subrange(0, idx) + match find(after, seq![')']) {
                None => "url("@ + url_scan(base, after),
                Some(c) => "url("@ + url_inner(base, after.subrange(0, c)) + ")"@
                    + url_scan(base, after.subrange(c + 1, after.len() as int)),
            }
        }),
        ({
            let after = r.subrange(idx + 4, r.len() as int);
            find(after, seq![')']) matches Some(c) ==> 0 <= c < after.len()
        }),
{
    reveal(url_scan);
    reveal_strlit("url(");
    lemma_find_from_facts(r, "url("@, 0);
    let after = r.subrange(idx + 4, r.len() as int);
    lemma_find_from_facts(after, seq![')'], 0);
}

/// CSS with no `url(` in it comes back unchanged.
pub proof fn lemma_without_url_unchanged(base: Seq<char>, r: Seq<char>)
    requires find(r, "url("@) is None,
    ensures url_scan(base, r) == r,
{
    reveal(url_scan);
}

fn url_inner_exec(base: &Vec<char>, inner: &Vec<char>) -> (r: Vec<char>)
    ensures r@ == url_inner(base@, inner@),
{
    let t = trimmed(inner);
    let n = t.len();
    let quoted = n >= 2 && (t[0] == '\'' || t[0] == '"') && t[n - 1] == t[0];
    let u = if quoted { slice(&t, 1, n - 1) } else { slice(&t, 0, n) };
    assert(t@.subrange(0, n as int) == t@);
    let us = string_of(u.as_slice());
    if is_relative(us.as_str()) {
        let mut out: Vec<char> = Vec::new();
        if quoted {
            out.push(t[0]);
        }
        let res = resolve_url_exec(base, &u);
        push_all(&mut out, &res);
        if quoted {
            out.push(t[0]);
        }
        let ghost q: Seq<char> = if quoted { seq![t@[0]] } else { seq![] };
        assert(out@ =~= q + resolve_url(base@, u@) + q);
        out
    } else {
        assert(inner@.subrange(0, inner@.len() as int) == inner@);
        slice(inner, 0, inner.len())
    }
}

/// `url_scan` on characters.
#[verifier::rlimit(40)]
fn url_scan_exec(base: &Vec<char>, v: &Vec<char>) -> (r: Vec<char>)
    ensures r@ == url_scan(base@, v@),
{
    proof { reveal_strlit("url("); }
    let pat = lit("url(");
    let mut out: Vec<char> = Vec::new();
    let mut i: usize = 0;
    assert(v@.subrange(0, v@.len() as int) == v@);
    while i <= v.len()
        invariant
            i <= v.len(),
            pat@ == "url("@,
            out@ + url_scan(base@, v@.subrange(i as int, v@.len() as int)) == url_scan(base@, v@),
        decreases v.len() - i,
    {
        let ghost r = v@.subrange(i as int, v@.len() as int);
        proof {
            reveal_strlit("url(");
            reveal_strlit(")");
            lemma_find_suffix(v@, pat@, i as int);
            lemma_find_from_facts(v@, pat@, i as int);
        }
        match find_in(v, &pat, i) {
            None => {
                push_range(&mut out, v, i, v.len());
                proof { lemma_without_url_unchanged(base@, r); }
                return out;
            },
            Some(idx) => {
                proof { lemma_url_scan_step(base@, r, idx - i); }
                let open_end = idx + 4;
                let ghost after = r.subrange(idx + 4 - i, r.len() as int);
                let ghost out0 = out@;
                assert(after == v@.subrange(open_end as int, v@.len() as int));
                assert(r.subrange(0, idx - i) == v@.subrange(i as int, idx as int));
                proof {
                    lemma_find_suffix(v@, seq![')'], open_end as int);
                    lemma_find_from_facts(v@, seq![')'], open_end as int);
                }
                push_range(&mut out, v, i, idx);
                push_str(&mut out, "url(");
                match find_char(v, ')', open_end) {
                    None => {
                        assert(out@ + url_scan(base@, after) =~= out0 + url_scan(base@, r));
                        i = open_end;
                    },
                    Some(close) => {
                        let inner = slice(v, open_end, close);
                        assert(after.subrange(0, close - open_end) == inner@);
                        let ghost rest = v@.subrange(close + 1, v@.len() as int);
                        assert(after.subrange(close - open_end + 1, after.len() as int) == rest);
                        let res = url_inner_exec(base, &inner);
                        push_all(&mut out, &res);
                        out.push(')');
                        assert(out@ + url_scan(base@, rest) =~= out0 + url_scan(base@, r));
                        i = close + 1;
                    },
                }
            },
        }
    }
    out
}

// ───────────────────────────── the pass ─────────────────────────────

/// The URL attributes, by tag.
pub open spec fn url_attr(i: int) -> (Seq<char>, Seq<char>) {
    if i == 0 { ("a"@, "href"@) }
    else if i == 1 { ("img"@, "src"@) }
    else if i == 2 { ("video"@, "src"@) }
    else if i == 3 { ("video"@, "poster"@) }
    else if i == 4 { ("source"@, "src"@) }
    else if i == 5 { ("link"@, "href"@) }
    else if i == 6 { ("td"@, "background"@) }
    else { ("table"@, "background"@) }
}

/// How many URL attributes there are.
pub const URL_ATTR_COUNT: usize = 8;

fn url_attr_exec(i: usize) -> (r: (&'static str, &'static str))
    requires i < URL_ATTR_COUNT,
    ensures (r.0@, r.1@) == url_attr(i as int),
{
    if i == 0 { ("a", "href") }
    else if i == 1 { ("img", "src") }
    else if i == 2 { ("video", "src") }
    else if i == 3 { ("video", "poster") }
    else if i == 4 { ("source", "src") }
    else if i == 5 { ("link", "href") }
    else if i == 6 { ("td", "background") }
    else { ("table", "background") }
}

proof fn lemma_url_attr_valid(i: int)
    requires 0 <= i < URL_ATTR_COUNT,
    ensures crate::html::valid_attr_name(url_attr(i).1),
{
    reveal_strlit("href");
    reveal_strlit("src");
    reveal_strlit("poster");
    reveal_strlit("background");
}

/// One URL attribute resolved, when the element has that tag and the value is relative.
pub open spec fn resolve_attr(base: Seq<char>, m: (Seq<char>, Seq<char>), tag: Seq<char>, a: Seq<(Seq<char>, Seq<char>)>) -> Seq<(Seq<char>, Seq<char>)> {
    if tag == m.0 {
        match attr_get(a, m.1) {
            Some(v) => if spec_is_relative(v) { attr_set(a, m.1, resolve_url(base, v)) } else { a },
            None => a,
        }
    } else {
        a
    }
}

/// The first `n` URL attributes resolved, in order.
pub open spec fn resolve_attrs(base: Seq<char>, n: nat, tag: Seq<char>, a: Seq<(Seq<char>, Seq<char>)>) -> Seq<(Seq<char>, Seq<char>)>
    decreases n,
{
    if n == 0 { a } else { resolve_attr(base, url_attr(n - 1), tag, resolve_attrs(base, (n - 1) as nat, tag, a)) }
}

/// An attribute replaced by `f(value)` when that differs.
pub open spec fn rewrite_attr(a: Seq<(Seq<char>, Seq<char>)>, name: Seq<char>, new_value: spec_fn(Seq<char>) -> Seq<char>) -> Seq<(Seq<char>, Seq<char>)> {
    match attr_get(a, name) {
        Some(v) => if new_value(v) != v { attr_set(a, name, new_value(v)) } else { a },
        None => a,
    }
}

/// What the pass does to an element's attributes: URL attributes, then the
/// `srcset` of images and sources, then the `url()`s of the inline style.
pub open spec fn spec_element(base: Seq<char>, tag: Seq<char>, attrs: Seq<(Seq<char>, Seq<char>)>) -> Seq<(Seq<char>, Seq<char>)> {
    let a1 = resolve_attrs(base, URL_ATTR_COUNT as nat, tag, attrs);
    let a2 = if tag == "img"@ || tag == "source"@ {
        rewrite_attr(a1, "srcset"@, |v: Seq<char>| srcset_resolve(base, v))
    } else {
        a1
    };
    rewrite_attr(a2, "style"@, |v: Seq<char>| url_scan(base, v))
}

/// What the pass does to a text chunk of a `<style>` block.
pub open spec fn spec_text(base: Seq<char>, text: Seq<char>) -> Option<Seq<char>> {
    if url_scan(base, text) != text { Some(url_scan(base, text)) } else { None }
}

proof fn lemma_only_link_href(base: Seq<char>, n: nat, a: Seq<(Seq<char>, Seq<char>)>)
    requires
        1 <= n <= URL_ATTR_COUNT,
    ensures
        resolve_attrs(base, n, "a"@, a) == resolve_attr(base, url_attr(0), "a"@, a),
    decreases n,
{
    reveal_strlit("a"); reveal_strlit("img"); reveal_strlit("video"); reveal_strlit("source");
    reveal_strlit("link"); reveal_strlit("td"); reveal_strlit("table");
    if n > 1 {
        lemma_only_link_href(base, (n - 1) as nat, a);
        assert(url_attr(n - 1).0.len() != 1);
        assert(url_attr(n - 1).0 != "a"@);
    } else {
        assert(resolve_attrs(base, 0, "a"@, a) == a);
    }
}

/// A link's relative `href` is resolved against the base; any other `href`
/// is left as it was.
pub proof fn lemma_link_href_resolved(base: Seq<char>, attrs: Seq<(Seq<char>, Seq<char>)>)
    requires
        attr_get(attrs, "href"@) is Some,
    ensures
        ({
            let v = attr_get(attrs, "href"@)->0;
            attr_get(spec_element(base, "a"@, attrs), "href"@)
                == Some(if spec_is_relative(v) { resolve_url(base, v) } else { v })
        }),
{
    reveal_strlit("a"); reveal_strlit("img"); reveal_strlit("source"); reveal_strlit("href"); reveal_strlit("style");
    let v = attr_get(attrs, "href"@)->0;
    lemma_only_link_href(base, URL_ATTR_COUNT as nat, attrs);
    let a1 = resolve_attrs(base, URL_ATTR_COUNT as nat, "a"@, attrs);
    if spec_is_relative(v) {
        lemma_attr_set_then_get(attrs, "href"@, resolve_url(base, v));
    }
    assert("a"@ != "img"@ && "a"@ != "source"@) by {
        assert("a"@.len() == 1 && "img"@.len() == 3 && "source"@.len() == 6);
    }
    assert(ascii_lower("style"@).len() == 5 && ascii_lower("href"@).len() == 4);
    if let Some(st) = attr_get(a1, "style"@) {
        lemma_attr_set_keeps_others(a1, "style"@, url_scan(base, st), "href"@);
    }
}

/// The URL attributes the pass resolves: a link's `href`, the `src` of an
/// image, a video and a source, a video's `poster`, a stylesheet link's
/// `href`, and the `background` of a table and of its cells.
pub open spec fn documented_url_attr(tag: Seq<char>, attr: Seq<char>) -> bool {
    ||| tag == "a"@ && attr == "href"@
    ||| tag == "img"@ && attr == "src"@
    ||| tag == "video"@ && (attr == "src"@ || attr == "poster"@)
    ||| tag == "source"@ && attr == "src"@
    ||| tag == "link"@ && attr == "href"@
    ||| (tag == "td"@ || tag == "table"@) && attr == "background"@
}

/// One resolving step, seen from one attribute: the step for that tag and
/// attribute resolves a relative value; a step for another tag or another
/// attribute leaves it.
proof fn lemma_resolve_attr_get(base: Seq<char>, m: (Seq<char>, Seq<char>), tag: Seq<char>, attr: Seq<char>, a: Seq<(Seq<char>, Seq<char>)>)
    requires
        crate::html::valid_attr_name(m.1),
    ensures
        m == (tag, attr) ==> attr_get(resolve_attr(base, m, tag, a), attr) == match attr_get(a, attr) {
            Some(v) => Some(if spec_is_relative(v) { resolve_url(base, v) } else { v }),
            None => None,
        },
        (m.0 != tag || ascii_lower(m.1) != ascii_lower(attr))
            ==> attr_get(resolve_attr(base, m, tag, a), attr) == attr_get(a, attr),
{
    if tag == m.0 {
        if let Some(v) = attr_get(a, m.1) {
            if spec_is_relative(v) {
                lemma_attr_set_then_get(a, m.1, resolve_url(base, v));
                if ascii_lower(m.1) != ascii_lower(attr) {
                    lemma_attr_set_keeps_others(a, m.1, resolve_url(base, v), attr);
                }
            }
        }
    }
}

/// The lengths and first letters that tell the URL tags and attributes apart.
proof fn lemma_url_literals()
    ensures
        "a"@.len() == 1 && "img"@.len() == 3 && "video"@.len() == 5 && "source"@.len() == 6,
        "link"@.len() == 4 && "td"@.len() == 2 && "table"@.len() == 5,
        "video"@[0] == 'v' && "table"@[0] == 't',
        "href"@.len() == 4 && "src"@.len() == 3 && "poster"@.len() == 6 && "background"@.len() == 10,
        "srcset"@.len() == 6 && "style"@.len() == 5,
{
    reveal_strlit("a"); reveal_strlit("img"); reveal_strlit("video"); reveal_strlit("source");
    reveal_strlit("link"); reveal_strlit("td"); reveal_strlit("table");
    reveal_strlit("href"); reveal_strlit("src"); reveal_strlit("poster"); reveal_strlit("background");
    reveal_strlit("srcset"); reveal_strlit("style");
}

/// No two URL attributes are the same (tag, attribute) pair.
proof fn lemma_url_attr_distinct(i: int, j: int)
    requires
        0 <= i < j < URL_ATTR_COUNT,
    ensures
        url_attr(i) != url_attr(j),
{
    lemma_url_literals();
    if url_attr(i) == url_attr(j) {
        assert(url_attr(i).0.len() == url_attr(j).0.len());
        assert(url_attr(i).1.len() == url_attr(j).1.len());
        assert(url_attr(i).0[0] == url_attr(j).0[0]);
    }
}

/// The first `k` resolving steps, seen from one documented attribute: its
/// value is resolved once its own step has run, and is the original before.
#[verifier::rlimit(40)]
proof fn lemma_resolve_attrs_prefix(base: Seq<char>, k: nat, tag: Seq<char>, attr: Seq<char>, attrs: Seq<(Seq<char>, Seq<char>)>)
    requires
        k <= URL_ATTR_COUNT,
        documented_url_attr(tag, attr),
        attr_get(attrs, attr) is Some,
    ensures
        ({
            let v = attr_get(attrs, attr)->0;
            let done = exists|j: int| 0 <= j < k && url_attr(j) == (tag, attr);
            attr_get(resolve_attrs(base, k, tag, attrs), attr)
                == Some(if done && spec_is_relative(v) { resolve_url(base, v) } else { v })
        }),
    decreases k,
{
    lemma_url_literals();
    if k > 0 {
        let i = k - 1;
        lemma_resolve_attrs_prefix(base, i as nat, tag, attr, attrs);
        lemma_url_attr_valid(i);
        let a = resolve_attrs(base, i as nat, tag, attrs);
        lemma_resolve_attr_get(base, url_attr(i), tag, attr, a);
        if url_attr(i) == (tag, attr) {
            assert forall|j: int| 0 <= j < i implies url_attr(j) != (tag, attr) by {
                lemma_url_attr_distinct(j, i);
            }
            assert(exists|j: int| 0 <= j < k && url_attr(j) == (tag, attr)) by {
                assert(url_attr(i) == (tag, attr));
            }
        } else {
            assert(ascii_lower(url_attr(i).1).len() == url_attr(i).1.len());
            assert(ascii_lower(attr).len() == attr.len());
            assert((exists|j: int| 0 <= j < k && url_attr(j) == (tag, attr))
                == (exists|j: int| 0 <= j < i && url_attr(j) == (tag, attr)));
        }
    }
}

/// Every documented URL attribute is resolved: an element of that tag
/// whose attribute holds a relative URL gets it joined to the base; any
/// other value stays.
#[verifier::rlimit(40)]
pub proof fn lemma_url_attrs_resolved(base: Seq<char>, tag: Seq<char>, attr: Seq<char>, attrs: Seq<(Seq<char>, Seq<char>)>)
    requires
        documented_url_attr(tag, attr),
        attr_get(attrs, attr) is Some,
    ensures
        ({
            let v = attr_get(attrs, attr)->0;
            attr_get(spec_element(base, tag, attrs), attr)
                == Some(if spec_is_relative(v) { resolve_url(base, v) } else { v })
        }),
{
    lemma_url_literals();
    lemma_resolve_attrs_prefix(base, URL_ATTR_COUNT as nat, tag, attr, attrs);
    assert((exists|j: int| 0 <= j < URL_ATTR_COUNT && url_attr(j) == (tag, attr))) by {
        if tag == "a"@ { assert(url_attr(0) == (tag, attr)); }
        else if tag == "img"@ { assert(url_attr(1) == (tag, attr)); }
        else if tag == "video"@ && attr == "src"@ { assert(url_attr(2) == (tag, attr)); }
        else if tag == "video"@ { assert(url_attr(3) == (tag, attr)); }
        else if tag == "source"@ { assert(url_attr(4) == (tag, attr)); }
        else if tag == "link"@ { assert(url_attr(5) == (tag, attr)); }
        else if tag == "td"@ { assert(url_attr(6) == (tag, attr)); }
        else { assert(url_attr(7) == (tag, attr)); }
    }
    let a1 = resolve_attrs(base, URL_ATTR_COUNT as nat, tag, attrs);
    assert(ascii_lower("srcset"@).len() == 6 && ascii_lower("style"@).len() == 5);
    assert(ascii_lower(attr).len() == attr.len());
    let a2 = if tag == "img"@ || tag == "source"@ {
        rewrite_attr(a1, "srcset"@, |v: Seq<char>| srcset_resolve(base, v))
    } else {
        a1
    };
    if tag == "img"@ || tag == "source"@ {
        if let Some(sv) = attr_get(a1, "srcset"@) {
            lemma_attr_set_keeps_others(a1, "srcset"@, srcset_resolve(base, sv), attr);
        }
    }
    if let Some(st) = attr_get(a2, "style"@) {
        lemma_attr_set_keeps_others(a2, "style"@, url_scan(base, st), attr);
    }
}

/// Resolves the relative URLs of one element.
pub fn on_element(base: &str, el: &mut HtmlElement) -> (r: Result<(), AttributeNameError>)
    ensures
        r is Ok,
        crate::html::same_frame(*final(el), *old(el)),
        element_attrs(*final(el)) == spec_element(base@, element_tag(*old(el)), element_attrs(*old(el))),
{
    proof { reveal_strlit("srcset"); reveal_strlit("style"); }
    let bv = chars_of(base);
    let tag = chars_of(tag_name(el).as_str());
    let ghost attrs0 = element_attrs(*el);
    let ghost el0 = *el;
    let mut i: usize = 0;
    while i < URL_ATTR_COUNT
        invariant
            i <= URL_ATTR_COUNT,
            bv@ == base@,
            tag@ == element_tag(*el),
            crate::html::same_frame(*el, el0),
            element_attrs(*el) == resolve_attrs(base@, i as nat, tag@, attrs0),
        decreases URL_ATTR_COUNT - i,
    {
        let m = url_attr_exec(i);
        if eq_str(&tag, m.0) {
            if let Some(val) = get_attribute(el, m.1) {
                if is_relative(val.as_str()) {
                    let vv = chars_of(val.as_str());
                    let resolved = resolve_url_exec(&bv, &vv);
                    let rs = string_of(resolved.as_slice());
                    proof { lemma_url_attr_valid(i as int); }
                    let _ = set_attribute(el, m.1, rs.as_str());
                }
            }
        }
        i = i + 1;
    }
    if eq_str(&tag, "img") || eq_str(&tag, "source") {
        if let Some(val) = get_attribute(el, "srcset") {
            let vv = chars_of(val.as_str());
            let resolved = srcset_exec(&bv, &vv);
            if !same(&resolved, &vv) {
                let rs = string_of(resolved.as_slice());
                let _ = set_attribute(el, "srcset", rs.as_str());
            }
        }
    }
    if let Some(val) = get_attribute(el, "style") {
        let vv = chars_of(val.as_str());
        let resolved = url_scan_exec(&bv, &vv);
        if !same(&resolved, &vv) {
            let rs = string_of(resolved.as_slice());
            let _ = set_attribute(el, "style", rs.as_str());
        }
    }
    Ok(())
}

/// Resolves the `url()`s of one text chunk of a `<style>` block.
pub fn on_text(base: &str, t: &mut TextChunk)
    ensures
        chunk_text(*final(t)) == chunk_text(*old(t)),
        spec_text(base@, chunk_text(*old(t))) matches Some(x) ==> chunk_replacement(*final(t)) == Some(x),
        spec_text(base@, chunk_text(*old(t))) is None ==> chunk_replacement(*final(t)) == chunk_replacement(*old(t)),
{
    let bv = chars_of(base);
    let css = chunk_string(t);
    let cv = chars_of(css.as_str());
    let resolved = url_scan_exec(&bv, &cv);
    if !same(&resolved, &cv) {
        let rs = string_of(resolved.as_slice());
        replace_chunk(t, rs.as_str());
    }
}

fn trim_end_slashes_exec(v: &Vec<char>) -> (r: Vec<char>)
    ensures r@ == trim_end_slashes(v@),
{
    let mut e = v.len();
    assert(v@.take(e as int) == v@);
    while e > 0 && v[e - 1] == '/'
        invariant
            e <= v.len(),
            trim_end_slashes(v@) == trim_end_slashes(v@.take(e as int)),
        decreases e,
    {
        assert(v@.take(e as int).drop_last() == v@.take(e - 1));
        e = e - 1;
    }
    assert(v@.take(e as int) == v@.subrange(0, e as int));
    slice(v, 0, e)
}

/// Resolves the document's relative URLs against `base_url`.
pub fn process(html: &str, base_url: &str) -> (r: Result<String, Error>)
    ensures
        r is Ok <==> rewrite_outcome(html@, "style"@, true, RuleView::BaseUrl(trim_end_slashes(base_url@))) is Ok,
        r matches Ok(s) ==> rewrite_outcome(html@, "style"@, true, RuleView::BaseUrl(trim_end_slashes(base_url@)))->Ok_0.0 == s@,
        r matches Err(e) ==> (e matches Error::HtmlRewrite(m) && rewrite_outcome(html@, "style"@, true, RuleView::BaseUrl(trim_end_slashes(base_url@))) matches Err(o) && o == m@),
{
    proof { reveal_strlit("style"); }
    let bv = chars_of(base_url);
    let base = string_of(trim_end_slashes_exec(&bv).as_slice());
    let mut log = RewriteLog::new();
    match rewrite(html, "style", true, &HtmlRule::BaseUrl(base), &mut log) {
        Ok(s) => Ok(s),
        Err(m) => Err(Error::HtmlRewrite(m)),
    }
}

} // verus!
