//! Keeping the last two words of a text together.
//!
//! In the text of elements marked `prevent-widows` or `no-widows`, a text
//! chunk of at least three words has its last space replaced by a
//! non-breaking space; the marking attributes are removed.
use vstd::prelude::*;
use crate::error::Error;
use crate::html::{attr_get, attr_remove, element_attrs, get_attribute, remove_attribute, HtmlElement};
use crate::html::{lemma_attr_remove_keeps_others, lemma_attr_remove_then_get};
use crate::html::{chunk_replacement, chunk_string, chunk_text, replace_chunk};
use crate::rewrite::{rewrite, rewrite_outcome, HtmlRule, RewriteLog, RuleView};
use crate::text::{ascii_lower, chars_of, push_range, split_whitespace, split_ws, string_of};
use lol_html::errors::AttributeNameError;
use lol_html::html_content::TextChunk;

verus! {

broadcast use vstd::string::group_string_axioms;

/// The fewest words a text needs for its last space to be replaced.
pub const MIN_WORDS: usize = 3;

/// The position of the last space (U+0020) of `s`.
pub open spec fn last_space(s: Seq<char>) -> Option<int>
    decreases s.len(),
{
    if s.len() == 0 {
        None
    } else if s.last() == ' ' {
        Some(s.len() - 1)
    } else {
        last_space(s.drop_last())
    }
}

/// What the pass does to a text chunk: with at least `MIN_WORDS` words and
/// a space, the last space becomes U+00A0.
pub open spec fn spec_text(t: Seq<char>) -> Option<Seq<char>> {
    if split_ws(t).len() >= MIN_WORDS {
        match last_space(t) {
            Some(p) => Some(t.subrange(0, p) + seq!['\u{a0}'] + t.subrange(p + 1, t.len() as int)),
            None => None,
        }
    } else {
        None
    }
}

/// Removes `name` if the element has it.
pub open spec fn drop_marker(a: Seq<(Seq<char>, Seq<char>)>, name: Seq<char>) -> Seq<(Seq<char>, Seq<char>)> {
    if attr_get(a, name) is Some { attr_remove(a, name) } else { a }
}

/// What the pass does to an element's attributes: the markers go.
pub open spec fn spec_element(attrs: Seq<(Seq<char>, Seq<char>)>) -> Seq<(Seq<char>, Seq<char>)> {
    drop_marker(drop_marker(attrs, "prevent-widows"@), "no-widows"@)
}

fn rfind_space(v: &Vec<char>) -> (r: Option<usize>)
    ensures
        r matches Some(p) ==> last_space(v@) == Some(p as int) && p < v.len(),
        r is None ==> last_space(v@) is None,
{
    let mut k = v.len();
    assert(v@.take(k as int) == v@);
    while k > 0
        invariant
            k <= v.len(),
            last_space(v@) == last_space(v@.take(k as int)),
        decreases k,
    {
        assert(v@.take(k as int).last() == v@[k - 1]);
        assert(v@.take(k as int).drop_last() == v@.take(k - 1));
        if v[k - 1] == ' ' {
            return Some(k - 1);
        }
        k = k - 1;
    }
    None
}

/// Ties the last two words of one text chunk together.
pub fn on_text(t: &mut TextChunk)
    ensures
        chunk_text(*final(t)) == chunk_text(*old(t)),
        spec_text(chunk_text(*old(t))) matches Some(x) ==> chunk_replacement(*final(t)) == Some(x),
        spec_text(chunk_text(*old(t))) is None ==> chunk_replacement(*final(t)) == chunk_replacement(*old(t)),
{
    let s = chunk_string(t);
    let v = chars_of(s.as_str());
    let words = split_whitespace(&v);
    if words.len() >= MIN_WORDS {
        if let Some(pos) = rfind_space(&v) {
            let mut out: Vec<char> = Vec::new();
            push_range(&mut out, &v, 0, pos);
            out.push('\u{a0}');
            push_range(&mut out, &v, pos + 1, v.len());
            let os = string_of(out.as_slice());
            replace_chunk(t, os.as_str());
        }
    }
}

/// Removes the widow markers from one element.
pub fn on_element(el: &mut HtmlElement) -> (r: Result<(), AttributeNameError>)
    ensures
        r is Ok,
        crate::html::same_frame(*final(el), *old(el)),
        element_attrs(*final(el)) == spec_element(element_attrs(*old(el))),
{
    if get_attribute(el, "prevent-widows").is_some() {
        remove_attribute(el, "prevent-widows");
    }
    if get_attribute(el, "no-widows").is_some() {
        remove_attribute(el, "no-widows");
    }
    Ok(())
}

/// Ties the last two words together in the text of marked elements.
pub fn process(html: &str) -> (r: Result<String, Error>)
    ensures
        r is Ok <==> rewrite_outcome(html@, "[prevent-widows], [no-widows]"@, true, RuleView::Widows) is Ok,
        r matches Ok(s) ==> rewrite_outcome(html@, "[prevent-widows], [no-widows]"@, true, RuleView::Widows)->Ok_0.0 == s@,
        r matches Err(e) ==> (e matches Error::HtmlRewrite(m) && rewrite_outcome(html@, "[prevent-widows], [no-widows]"@, true, RuleView::Widows) matches Err(o) && o == m@),
{
    let mut log = RewriteLog::new();
    match rewrite(html, "[prevent-widows], [no-widows]", true, &HtmlRule::Widows, &mut log) {
        Ok(s) => Ok(s),
        Err(m) => Err(Error::HtmlRewrite(m)),
    }
}


// ───────────────────────────── laws ─────────────────────────────

proof fn lemma_last_space(s: Seq<char>)
    ensures
        last_space(s) matches Some(p) ==> 0 <= p < s.len() && s[p] == ' '
            && forall|j: int| p < j < s.len() ==> s[j] != ' ',
        last_space(s) is None ==> forall|j: int| 0 <= j < s.len() ==> s[j] != ' ',
    decreases s.len(),
{
    if s.len() > 0 && s.last() != ' ' {
        lemma_last_space(s.drop_last());
        assert forall|j: int| 0 <= j < s.len() - 1 implies s[j] == s.drop_last()[j] by {}
    }
}

/// When the pass changes a text, it changes one character: the last space,
/// which becomes a non-breaking space; no plain space follows it.
pub proof fn lemma_widows_last_space_only(t: Seq<char>)
    requires
        spec_text(t) is Some,
    ensures
        ({
            let x = spec_text(t)->0;
            &&& x.len() == t.len()
            &&& exists|p: int| 0 <= p < t.len() && #[trigger] t[p] == ' ' && x[p] == '\u{a0}'
                && (forall|j: int| 0 <= j < t.len() && j != p ==> x[j] == t[j])
                && (forall|j: int| p < j < t.len() ==> t[j] != ' ')
        }),
{
    lemma_last_space(t);
    let p = last_space(t)->0;
    let x = spec_text(t)->0;
    assert(x.len() == t.len());
    assert forall|j: int| 0 <= j < t.len() && j != p implies x[j] == t[j] by {
        if j < p {
            assert(x[j] == t.subrange(0, p)[j]);
        } else {
            assert(x[j] == t.subrange(p + 1, t.len() as int)[j - p - 1]);
        }
    }
    assert(x[p] == '\u{a0}');
}

/// The markers are gone from every element the pass has seen.
pub proof fn lemma_widows_markers_removed(attrs: Seq<(Seq<char>, Seq<char>)>)
    ensures
        attr_get(spec_element(attrs), "prevent-widows"@) is None,
        attr_get(spec_element(attrs), "no-widows"@) is None,
{
    reveal_strlit("prevent-widows");
    reveal_strlit("no-widows");
    let (pw, nw) = ("prevent-widows"@, "no-widows"@);
    assert(ascii_lower(pw).len() == 14 && ascii_lower(nw).len() == 9);
    let b = drop_marker(attrs, pw);
    lemma_attr_remove_then_get(attrs, pw);
    lemma_attr_remove_then_get(b, nw);
    if attr_get(b, nw) is Some {
        lemma_attr_remove_keeps_others(b, nw, pw);
    }
}

} // verus!
