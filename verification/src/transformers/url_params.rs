//! Tracking parameters on links.
//!
//! Every `<a>` whose `href` is an absolute `http://` or `https://` URL gets
//! the parameters appended as a query string, after `?` or, when the URL
//! already has a query, after `&`.
use vstd::prelude::*;
use crate::error::Error;
use crate::html::{attr_get, attr_set, element_attrs, element_tag, get_attribute, set_attribute, tag_name, HtmlElement};
use crate::html::{lemma_attr_set_keeps_others, lemma_attr_set_then_get};
use crate::rewrite::{rewrite, rewrite_outcome, HtmlRule, RewriteLog, RuleView};
use crate::text::{ascii_lower, chars_of, contains, eq_str, find_char, join, join_with, push_all, push_str, starts_with, string_of, trim, trimmed};
use lol_html::errors::AttributeNameError;

verus! {

broadcast use vstd::string::group_string_axioms;

/// A URL parameters are added to: absolute HTTP or HTTPS, once trimmed.
pub open spec fn spec_is_trackable(url: Seq<char>) -> bool {
    starts_with(trim(url), "http://"@) || starts_with(trim(url), "https://"@)
}

/// Whether parameters are added to a URL (see `spec_is_trackable`).
pub fn is_trackable(url: &str) -> (r: bool)
    ensures r == spec_is_trackable(url@),
{
    let v = chars_of(url);
    let t = trimmed(&v);
    crate::text::starts_with_at(&t, 0, "http://") || crate::text::starts_with_at(&t, 0, "https://")
}

/// The parameters as `key=value` pieces.
pub open spec fn param_pieces(params: Seq<(Seq<char>, Seq<char>)>) -> Seq<Seq<char>> {
    params.map_values(|p: (Seq<char>, Seq<char>)| p.0 + "="@ + p.1)
}

/// The query string: `key=value` pieces joined by `&`.
pub open spec fn spec_query(params: Seq<(Seq<char>, Seq<char>)>) -> Seq<char> {
    join(param_pieces(params), "&"@)
}

pub open spec fn params_view(params: Seq<(String, String)>) -> Seq<(Seq<char>, Seq<char>)> {
    params.map_values(|p: (String, String)| (p.0@, p.1@))
}

/// The query string of the parameters (see `spec_query`).
pub fn query_string(params: &[(String, String)]) -> (r: String)
    ensures r@ == spec_query(params_view(params@)),
{
    proof { reveal_strlit("="); }
    let ghost pv = param_pieces(params_view(params@));
    let mut pieces: Vec<Vec<char>> = Vec::new();
    for k in 0..params.len()
        invariant
            pv == param_pieces(params_view(params@)),
            pieces@.map_values(|x: Vec<char>| x@) == pv.take(k as int),
    {
        let ghost before = pieces@.map_values(|x: Vec<char>| x@);
        let mut piece = chars_of(params[k].0.as_str());
        push_str(&mut piece, "=");
        push_all(&mut piece, &chars_of(params[k].1.as_str()));
        pieces.push(piece);
        assert(pv.take(k + 1) == pv.take(k as int).push(pv[k as int]));
        assert(pieces@.map_values(|x: Vec<char>| x@) =~= before.push(pv[k as int]));
    }
    assert(pv.take(params.len() as int) == pv);
    let joined = join_with(&pieces, "&");
    string_of(joined.as_slice())
}

/// What the pass does to an element's attributes: a trackable `href` of an
/// `<a>` gets the query appended.
pub open spec fn spec_element(query: Seq<char>, tag: Seq<char>, attrs: Seq<(Seq<char>, Seq<char>)>) -> Seq<(Seq<char>, Seq<char>)> {
    if tag == "a"@ {
        match attr_get(attrs, "href"@) {
            Some(h) => if spec_is_trackable(h) {
                let sep: Seq<char> = if contains(h, seq!['?']) { "&"@ } else { "?"@ };
                attr_set(attrs, "href"@, h + sep + query)
            } else {
                attrs
            },
            None => attrs,
        }
    } else {
        attrs
    }
}

/// A tracked link's `href` becomes the old URL, `?` (or `&` when it already
/// has a query) and the parameters; every other attribute stays as it was.
pub proof fn lemma_link_gets_query(query: Seq<char>, attrs: Seq<(Seq<char>, Seq<char>)>, other: Seq<char>)
    requires
        attr_get(attrs, "href"@) matches Some(h) && spec_is_trackable(h),
        ascii_lower(other) != ascii_lower("href"@),
    ensures
        ({
            let h = attr_get(attrs, "href"@)->0;
            let sep: Seq<char> = if contains(h, seq!['?']) { "&"@ } else { "?"@ };
            &&& attr_get(spec_element(query, "a"@, attrs), "href"@) == Some(h + sep + query)
            &&& attr_get(spec_element(query, "a"@, attrs), other) == attr_get(attrs, other)
        }),
{
    let h = attr_get(attrs, "href"@)->0;
    let sep: Seq<char> = if contains(h, seq!['?']) { "&"@ } else { "?"@ };
    lemma_attr_set_then_get(attrs, "href"@, h + sep + query);
    lemma_attr_set_keeps_others(attrs, "href"@, h + sep + query, other);
}

/// Appends the query to one link.
pub fn on_element(query: &str, el: &mut HtmlElement) -> (r: Result<(), AttributeNameError>)
    ensures
        r is Ok,
        crate::html::same_frame(*final(el), *old(el)),
        element_attrs(*final(el)) == spec_element(query@, element_tag(*old(el)), element_attrs(*old(el))),
{
    proof { reveal_strlit("href"); reveal_strlit("&"); reveal_strlit("?"); }
    let tag = chars_of(tag_name(el).as_str());
    if !eq_str(&tag, "a") {
        return Ok(());
    }
    if let Some(href) = get_attribute(el, "href") {
        if is_trackable(href.as_str()) {
            let mut v = chars_of(href.as_str());
            let ghost h = v@;
            if find_char(&v, '?', 0).is_some() {
                push_str(&mut v, "&");
            } else {
                push_str(&mut v, "?");
            }
            push_str(&mut v, query);
            let s = string_of(v.as_slice());
            return set_attribute(el, "href", s.as_str());
        }
    }
    Ok(())
}

/// Appends the parameters to every trackable link; with no parameters the
/// document comes back unchanged.
pub fn process(html: &str, params: &[(String, String)]) -> (r: Result<String, Error>)
    ensures
        r is Ok <==> (params@.len() == 0
            || rewrite_outcome(html@, "style"@, true, RuleView::UrlParams(spec_query(params_view(params@)))) is Ok),
        r matches Ok(s) ==> if params@.len() == 0 {
            s@ == html@
        } else {
            rewrite_outcome(html@, "style"@, true, RuleView::UrlParams(spec_query(params_view(params@))))->Ok_0.0 == s@
        },
        r matches Err(e) ==> (e matches Error::HtmlRewrite(m) && rewrite_outcome(html@, "style"@, true, RuleView::UrlParams(spec_query(params_view(params@)))) matches Err(o) && o == m@),
{
    if params.len() == 0 {
        return Ok(html.to_string());
    }
    proof { reveal_strlit("style"); }
    let query = query_string(params);
    let mut log = RewriteLog::new();
    match rewrite(html, "style", true, &HtmlRule::UrlParams(query), &mut log) {
        Ok(s) => Ok(s),
        Err(m) => Err(Error::HtmlRewrite(m)),
    }
}

} // verus!
