//! Doctype and standard email meta tags.
//!
//! The charset, viewport, X-UA-Compatible and format-detection meta tags
//! that the document does not mention yet (compared in lowercase) are put at
//! the start of every `<head>`; a document that does not begin with a
//! doctype gets the XHTML 1.0 Transitional one.
use vstd::prelude::*;
use crate::error::Error;
use crate::rewrite::{rewrite, rewrite_outcome, HtmlRule, RewriteLog, RuleView};
use crate::text::{
    chars_of, contains, find_in, lit, push_str, starts_with, string_of, to_lowercase, trim_start, trimmed,
    lowercase, concat2, skip_ws, lemma_find_from_facts,
};

verus! {

broadcast use vstd::string::group_string_axioms;

pub const DOCTYPE: &'static str = "<!DOCTYPE html PUBLIC \"-//W3C//DTD XHTML 1.0 Transitional//EN\" \"http://www.w3.org/TR/xhtml1/DTD/xhtml1-transitional.dtd\">\n";
pub const CHARSET_META: &'static str = "<meta http-equiv=\"Content-Type\" content=\"text/html; charset=UTF-8\">";
pub const VIEWPORT_META: &'static str = "<meta name=\"viewport\" content=\"width=device-width, initial-scale=1.0\">";
pub const X_UA_META: &'static str = "<meta http-equiv=\"X-UA-Compatible\" content=\"IE=edge\">";
pub const FORMAT_DETECTION_META: &'static str = "<meta name=\"format-detection\" content=\"telephone=no, date=no, address=no, email=no, url=no\">";

/// The meta tags a document needs, given its lowercased text, in order.
pub open spec fn meta_to_inject(lower: Seq<char>) -> Seq<char> {
    (if !contains(lower, "charset="@) { CHARSET_META@ } else { seq![] })
    + (if !contains(lower, "name=\"viewport\""@) && !contains(lower, "name='viewport'"@) { VIEWPORT_META@ } else { seq![] })
    + (if !contains(lower, "x-ua-compatible"@) { X_UA_META@ } else { seq![] })
    + (if !contains(lower, "name=\"format-detection\""@) && !contains(lower, "name='format-detection'"@) { FORMAT_DETECTION_META@ } else { seq![] })
}

/// Whether the document begins (after white space, in lowercase) with a doctype.
pub open spec fn has_doctype(html: Seq<char>) -> bool {
    starts_with(lowercase(trim_start(html)), "<!doctype"@)
}

fn contains_str(v: &Vec<char>, p: &str) -> (r: bool)
    ensures r == contains(v@, p@),
{
    let pv = lit(p);
    find_in(v, &pv, 0).is_some()
}

/// Adds the doctype and the missing meta tags (see the module).
pub fn process(html: &str) -> (r: Result<String, Error>)
    ensures
        r is Ok <==> (meta_to_inject(lowercase(html@)).len() == 0
            || rewrite_outcome(html@, "style"@, true, RuleView::PrependToHead(meta_to_inject(lowercase(html@)))) is Ok),
        r matches Ok(s) ==> ({
            let inject = meta_to_inject(lowercase(html@));
            let body = if inject.len() == 0 {
                html@
            } else {
                rewrite_outcome(html@, "style"@, true, RuleView::PrependToHead(inject))->Ok_0.0
            };
            s@ == if has_doctype(html@) { body } else { DOCTYPE@ + body }
        }),
        r matches Err(e) ==> (e matches Error::HtmlRewrite(m) && rewrite_outcome(html@, "style"@, true, RuleView::PrependToHead(meta_to_inject(lowercase(html@)))) matches Err(o) && o == m@),
{
    proof { reveal_strlit("style"); reveal_strlit("<!doctype"); }
    let hv = chars_of(html);
    let start = skip_ws(&hv, 0, hv.len());
    assert(hv@.subrange(0, hv@.len() as int) == hv@);
    let head_part = string_of(crate::text::slice(&hv, start, hv.len()).as_slice());
    let lowered_start = chars_of(to_lowercase(head_part.as_str()).as_str());
    let doctype = crate::text::starts_with_at(&lowered_start, 0, "<!doctype");
    let lower = chars_of(to_lowercase(html).as_str());
    let mut inject: Vec<char> = Vec::new();
    if !contains_str(&lower, "charset=") {
        push_str(&mut inject, CHARSET_META);
    }
    if !contains_str(&lower, "name=\"viewport\"") && !contains_str(&lower, "name='viewport'") {
        push_str(&mut inject, VIEWPORT_META);
    }
    if !contains_str(&lower, "x-ua-compatible") {
        push_str(&mut inject, X_UA_META);
    }
    if !contains_str(&lower, "name=\"format-detection\"") && !contains_str(&lower, "name='format-detection'") {
        push_str(&mut inject, FORMAT_DETECTION_META);
    }
    assert(inject@ =~= meta_to_inject(lowercase(html@)));
    let body = if inject.len() > 0 {
        let mut log = RewriteLog::new();
        let content = string_of(inject.as_slice());
        match rewrite(html, "style", true, &HtmlRule::PrependToHead(content), &mut log) {
            Ok(s) => s,
            Err(m) => return Err(Error::HtmlRewrite(m)),
        }
    } else {
        html.to_string()
    };
    if !doctype {
        Ok(concat2(DOCTYPE, body.as_str()))
    } else {
        Ok(body)
    }
}

} // verus!
