//! Removal of class names that only served the inlined styles.
//!
//! The class names that `@media` rules of the `<style>` blocks refer to are
//! collected; then every `class` attribute keeps only those names (joined by
//! single spaces), and goes when none is left.
use vstd::prelude::*;
use crate::error::Error;
use crate::html::{
    attr_get, attr_remove, attr_set, element_attrs, element_tag, get_attribute, remove_attribute, set_attribute,
    HtmlElement,
};
use crate::rewrite::{rewrite, rewrite_outcome, HtmlRule, RewriteLog, RuleView};
use crate::text::{
    chars_of, close_index, contains_string, find, find_char, is_alnum, is_ascii_alphanumeric, join, join_with,
    lemma_close_index, lemma_find_from_facts, lemma_find_suffix, matches_at, matching_close, split_whitespace, split_ws,
    starts_with, string_of,
};
use lol_html::errors::AttributeNameError;

verus! {

broadcast use vstd::string::group_string_axioms;

pub open spec fn strings_view(l: Seq<String>) -> Seq<Seq<char>> {
    l.map_values(|t: String| t@)
}

// ───────────────────────────── class selectors ─────────────────────────────

/// Characters a class name in a selector is read over, besides escapes.
pub open spec fn class_char(c: char) -> bool {
    is_alnum(c) || c == '-' || c == '_'
}

/// The end of the class name that starts at `i`: class-name characters and
/// escapes (a backslash and the character after it).
pub open spec fn class_end(s: Seq<char>, i: int) -> int
    decreases s.len() - i,
{
    if 0 <= i < s.len() && s[i] == '\\' {
        class_end(s, if i + 1 < s.len() { i + 2 } else { i + 1 })
    } else if 0 <= i < s.len() && class_char(s[i]) {
        class_end(s, i + 1)
    } else {
        i
    }
}

proof fn lemma_class_end(s: Seq<char>, i: int)
    requires 0 <= i <= s.len(),
    ensures i <= class_end(s, i) <= s.len(),
    decreases s.len() - i,
{
    if i < s.len() {
        if s[i] == '\\' && i + 1 < s.len() {
            lemma_class_end(s, i + 2);
        } else {
            lemma_class_end(s, i + 1);
        }
    }
}

/// `s` without its backslashes.
pub open spec fn unescape(s: Seq<char>) -> Seq<char>
    decreases s.len(),
{
    if s.len() == 0 {
        seq![]
    } else if s.last() == '\\' {
        unescape(s.drop_last())
    } else {
        unescape(s.drop_last()).push(s.last())
    }
}

/// The class named by a `.` at `i`, if any: the class-name characters after
/// it, without backslashes, when that leaves something.
pub open spec fn class_at(s: Seq<char>, i: int) -> Seq<Seq<char>> {
    if 0 <= i < s.len() && s[i] == '.' {
        let name = unescape(s.subrange(i + 1, class_end(s, i + 1)));
        if name.len() > 0 { seq![name] } else { seq![] }
    } else {
        seq![]
    }
}

/// The classes named by the `.`s of `s` from `i` on, in order.
pub open spec fn class_selectors_from(s: Seq<char>, i: int) -> Seq<Seq<char>>
    decreases s.len() - i,
{
    if i < 0 || i >= s.len() { seq![] } else { class_at(s, i) + class_selectors_from(s, i + 1) }
}

fn unescape_exec(v: &Vec<char>, a: usize, b: usize) -> (r: Vec<char>)
    requires a <= b <= v.len(),
    ensures r@ == unescape(v@.subrange(a as int, b as int)),
{
    let mut out: Vec<char> = Vec::new();
    let mut k = a;
    assert(v@.subrange(a as int, a as int) =~= Seq::<char>::empty());
    while k < b
        invariant
            a <= k <= b <= v.len(),
            out@ == unescape(v@.subrange(a as int, k as int)),
        decreases b - k,
    {
        assert(v@.subrange(a as int, k + 1).drop_last() == v@.subrange(a as int, k as int));
        assert(v@.subrange(a as int, k + 1).last() == v@[k as int]);
        if v[k] != '\\' {
            out.push(v[k]);
        }
        k = k + 1;
    }
    out
}

/// Pushes the class names that the `.`s of `v` introduce (see `class_selectors_from`).
fn push_class_selectors(v: &Vec<char>, out: &mut Vec<String>)
    ensures strings_view(final(out)@) == strings_view(old(out)@) + class_selectors_from(v@, 0),
{
    let ghost o = strings_view(out@);
    let mut i: usize = 0;
    assert(o + class_selectors_from(v@, 0) == o + class_selectors_from(v@, 0));
    while i < v.len()
        invariant
            i <= v.len(),
            strings_view(out@) + class_selectors_from(v@, i as int) == o + class_selectors_from(v@, 0),
        decreases v.len() - i,
    {
        let ghost before = strings_view(out@);
        if v[i] == '.' {
            let mut e = i + 1;
            proof { lemma_class_end(v@, i + 1); }
            while e < v.len() && (is_ascii_alphanumeric(v[e]) || v[e] == '-' || v[e] == '_' || v[e] == '\\')
                invariant
                    i + 1 <= e <= v.len(),
                    class_end(v@, i + 1) == class_end(v@, e as int),
                decreases v.len() - e,
            {
                if v[e] == '\\' && e + 1 < v.len() {
                    e = e + 2;
                } else {
                    e = e + 1;
                }
            }
            let name = unescape_exec(v, i + 1, e);
            if name.len() > 0 {
                out.push(string_of(name.as_slice()));
                assert(strings_view(out@) =~= before + class_at(v@, i as int));
            } else {
                assert(strings_view(out@) =~= before + class_at(v@, i as int));
            }
        } else {
            assert(strings_view(out@) =~= before + class_at(v@, i as int));
        }
        assert(class_selectors_from(v@, i as int) == class_at(v@, i as int) + class_selectors_from(v@, i + 1));
        assert(strings_view(out@) + class_selectors_from(v@, i + 1) =~= before + class_selectors_from(v@, i as int));
        i = i + 1;
    }
    assert(class_selectors_from(v@, i as int) =~= Seq::<Seq<char>>::empty());
    assert(strings_view(out@) =~= strings_view(out@) + class_selectors_from(v@, i as int));
}

/// The `.classname` selectors of a CSS text, unescaped, in order.
pub fn extract_class_selectors(css: &str) -> (r: Vec<String>)
    ensures strings_view(r@) == class_selectors_from(css@, 0),
{
    let v = chars_of(css);
    let mut out: Vec<String> = Vec::new();
    push_class_selectors(&v, &mut out);
    assert(strings_view(out@) =~= Seq::<Seq<char>>::empty() + class_selectors_from(v@, 0));
    out
}

// ───────────────────────────── @media blocks ─────────────────────────────

/// The position of the `}` that closes a `{` already passed, in `v[from..]`,
/// relative to `from`.
pub fn find_matching_brace(v: &Vec<char>, from: usize) -> (r: Option<usize>)
    requires from <= v.len(),
    ensures
        r matches Some(k) ==> from + k < v.len() && close_index(v@.subrange(from as int, v@.len() as int), 0, 1, '{', '}') == Some(k as int),
        r is None ==> close_index(v@.subrange(from as int, v@.len() as int), 0, 1, '{', '}') is None,
{
    matching_close(v, from, '{', '}')
}

/// The body of an `@media` rule whose `@` is at `i`: from after the first
/// `{` to the brace that closes it; none when that rule is not there.
pub open spec fn media_block_at(s: Seq<char>, i: int) -> Option<Seq<char>> {
    if 0 <= i < s.len() && s[i] == '@' {
        let rest = s.subrange(i + 1, s.len() as int);
        if starts_with(rest, "media"@) {
            match find(rest, seq!['{']) {
                Some(bp) => {
                    let ab = rest.subrange(bp + 1, rest.len() as int);
                    match close_index(ab, 0, 1, '{', '}') {
                        Some(e) => Some(ab.subrange(0, e)),
                        None => None,
                    }
                },
                None => None,
            }
        } else {
            None
        }
    } else {
        None
    }
}

/// The classes that the `@media` rules of `s` from `i` on refer to. Every
/// `@` is looked at, also those inside a block already read.
pub open spec fn media_classes_from(s: Seq<char>, i: int) -> Seq<Seq<char>>
    decreases s.len() - i,
{
    if i < 0 || i >= s.len() {
        seq![]
    } else {
        (match media_block_at(s, i) {
            Some(b) => class_selectors_from(b, 0),
            None => seq![],
        }) + media_classes_from(s, i + 1)
    }
}

/// The classes that the `@media` rules of a CSS text refer to, in order.
pub fn extract_media_classes(css: &str) -> (r: Vec<String>)
    ensures strings_view(r@) == media_classes_from(css@, 0),
{
    proof { reveal_strlit("media"); }
    let v = chars_of(css);
    let mut out: Vec<String> = Vec::new();
    let mut i: usize = 0;
    assert(strings_view(out@) + media_classes_from(v@, 0) =~= media_classes_from(v@, 0));
    while i < v.len()
        invariant
            i <= v.len(),
            v@ == css@,
            strings_view(out@) + media_classes_from(v@, i as int) == media_classes_from(v@, 0),
        decreases v.len() - i,
    {
        proof { reveal_strlit("media"); }
        let ghost before = strings_view(out@);
        let mut block: Option<Vec<char>> = None;
        if v[i] == '@' && crate::text::starts_with_at(&v, i + 1, "media") {
            let ghost rest = v@.subrange(i + 1, v@.len() as int);
            assert(rest.subrange(0, 5) == v@.subrange(i + 1, i + 6));
            assert(starts_with(rest, "media"@));
            proof {
                lemma_find_suffix(v@, seq!['{'], i + 1);
                lemma_find_from_facts(v@, seq!['{'], i + 1);
            }
            if let Some(bp) = find_char(&v, '{', i + 1) {
                assert(matches_at(v@, bp as int, seq!['{']));
                assert(seq!['{'].len() == 1);
                let ghost ab = rest.subrange(bp - i, rest.len() as int);
                assert(ab == v@.subrange(bp + 1, v@.len() as int));
                if let Some(e) = find_matching_brace(&v, bp + 1) {
                    let b = crate::text::slice(&v, bp + 1, bp + 1 + e);
                    assert(ab.subrange(0, e as int) == b@);
                    block = Some(b);
                }
            }
        } else {
            proof {
                if v@[i as int] == '@' {
                    let rest = v@.subrange(i + 1, v@.len() as int);
                    if starts_with(rest, "media"@) {
                        assert(rest.subrange(0, 5) == v@.subrange(i + 1, i + 6));
                    }
                }
            }
        }
        assert(block matches Some(b) ==> media_block_at(v@, i as int) == Some(b@));
        assert(block is None ==> media_block_at(v@, i as int) is None);
        if let Some(b) = block {
            let mut more: Vec<String> = Vec::new();
            push_class_selectors(&b, &mut more);
            let ghost mv = strings_view(more@);
            assert(mv =~= Seq::<Seq<char>>::empty() + class_selectors_from(b@, 0));
            let mut k: usize = 0;
            while k < more.len()
                invariant
                    k <= more.len(),
                    mv == strings_view(more@),
                    strings_view(out@) == before + mv.take(k as int),
                decreases more.len() - k,
            {
                let ghost o1 = strings_view(out@);
                out.push(more[k].clone());
                assert(mv.take(k + 1) == mv.take(k as int).push(mv[k as int]));
                assert(strings_view(out@) =~= o1.push(mv[k as int]));
                k = k + 1;
            }
            assert(mv.take(more.len() as int) == mv);
        } else {
            assert(strings_view(out@) =~= before + Seq::<Seq<char>>::empty());
        }
        assert(strings_view(out@) + media_classes_from(v@, i + 1) =~= before + media_classes_from(v@, i as int));
        i = i + 1;
    }
    assert(media_classes_from(v@, i as int) =~= Seq::<Seq<char>>::empty());
    assert(strings_view(out@) =~= strings_view(out@) + media_classes_from(v@, i as int));
    out
}

// ───────────────────────────── the pass ─────────────────────────────

/// The words of `words` that `listed` holds, in order.
pub open spec fn keep_listed(words: Seq<Seq<char>>, listed: Seq<Seq<char>>) -> Seq<Seq<char>>
    decreases words.len(),
{
    if words.len() == 0 {
        seq![]
    } else {
        let k = keep_listed(words.drop_last(), listed);
        if listed.contains(words.last()) { k.push(words.last()) } else { k }
    }
}

/// A class name stays exactly when it is listed, and the names that stay
/// keep their order.
pub proof fn lemma_keep_listed_is_filter(words: Seq<Seq<char>>, listed: Seq<Seq<char>>)
    ensures
        keep_listed(words, listed) == words.filter(|w: Seq<char>| listed.contains(w)),
    decreases words.len(),
{
    reveal(Seq::filter);
    if words.len() > 0 {
        lemma_keep_listed_is_filter(words.drop_last(), listed);
    }
}

/// What the pass does to an element's attributes: its `class` keeps the
/// listed names, joined by single spaces, and goes when none is left.
pub open spec fn spec_element(listed: Seq<Seq<char>>, attrs: Seq<(Seq<char>, Seq<char>)>) -> Seq<(Seq<char>, Seq<char>)> {
    match attr_get(attrs, "class"@) {
        Some(c) => {
            let kept = keep_listed(split_ws(c), listed);
            if kept.len() == 0 { attr_remove(attrs, "class"@) } else { attr_set(attrs, "class"@, join(kept, " "@)) }
        },
        None => attrs,
    }
}

/// Filters one element's `class` attribute.
pub fn on_element(listed: &Vec<String>, el: &mut HtmlElement) -> (r: Result<(), AttributeNameError>)
    ensures
        r is Ok,
        crate::html::same_frame(*final(el), *old(el)),
        element_attrs(*final(el)) == spec_element(strings_view(listed@), element_attrs(*old(el))),
{
    proof { reveal_strlit("class"); }
    let ghost lv = strings_view(listed@);
    if let Some(classes) = get_attribute(el, "class") {
        let cv = chars_of(classes.as_str());
        let words = split_whitespace(&cv);
        let ghost ws = split_ws(cv@);
        let mut kept: Vec<Vec<char>> = Vec::new();
        for k in 0..words.len()
            invariant
                ws == split_ws(cv@),
                lv == strings_view(listed@),
                words@.len() == ws.len(),
                forall|j: int| 0 <= j < words@.len() ==> #[trigger] words@[j]@ == ws[j],
                kept@.map_values(|x: Vec<char>| x@) == keep_listed(ws.take(k as int), lv),
        {
            proof {
                assert(ws.take(k + 1).drop_last() == ws.take(k as int));
                assert(ws.take(k + 1).last() == words@[k as int]@);
            }
            let ghost before = kept@.map_values(|x: Vec<char>| x@);
            if contains_string(listed, &words[k]) {
                let w = crate::text::slice(&words[k], 0, words[k].len());
                assert(words@[k as int]@.subrange(0, words@[k as int]@.len() as int) == words@[k as int]@);
                kept.push(w);
                assert(kept@.map_values(|x: Vec<char>| x@) =~= before.push(ws[k as int]));
            }
        }
        assert(ws.take(words.len() as int) == ws);
        if kept.len() == 0 {
            remove_attribute(el, "class");
            return Ok(());
        } else {
            let joined = join_with(&kept, " ");
            let js = string_of(joined.as_slice());
            return set_attribute(el, "class", js.as_str());
        }
    }
    Ok(())
}

/// The classes the `@media` rules of a document's `<style>` text chunks refer to.
pub open spec fn texts_media_classes(texts: Seq<Seq<char>>) -> Seq<Seq<char>>
    decreases texts.len(),
{
    if texts.len() == 0 {
        seq![]
    } else {
        texts_media_classes(texts.drop_last()) + media_classes_from(texts.last(), 0)
    }
}

/// The `@media` classes a collecting pass over `html` finds, if it succeeds.
pub open spec fn spec_collected_media_classes(html: Seq<char>) -> Option<Seq<Seq<char>>> {
    match rewrite_outcome(html, "style"@, true, RuleView::Collect) {
        Ok((_, log)) => Some(texts_media_classes(log.texts)),
        Err(_) => None,
    }
}

/// Keeps, in every `class` attribute, only the classes that `@media` rules
/// of the document's `<style>` blocks refer to.
pub fn process(html: &str) -> (r: Result<String, Error>)
    ensures
        r is Ok <==> (spec_collected_media_classes(html@) matches Some(m)
            && rewrite_outcome(html@, "style"@, true, RuleView::ClassCleanup(m)) is Ok),
        r matches Ok(s) ==> (spec_collected_media_classes(html@) matches Some(m)
            && rewrite_outcome(html@, "style"@, true, RuleView::ClassCleanup(m))->Ok_0.0 == s@),
        r matches Err(e) ==> (e matches Error::HtmlRewrite(msg) && match spec_collected_media_classes(html@) {
            None => rewrite_outcome(html@, "style"@, true, RuleView::Collect) matches Err(o) && o == msg@,
            Some(m) => rewrite_outcome(html@, "style"@, true, RuleView::ClassCleanup(m)) matches Err(o) && o == msg@,
        }),
{
    proof { reveal_strlit("style"); }
    let mut log = RewriteLog::new();
    if let Err(m) = rewrite(html, "style", true, &HtmlRule::Collect, &mut log) {
        return Err(Error::HtmlRewrite(m));
    }
    let ghost tv = log.texts@.map_values(|t: String| t@);
    let mut media: Vec<String> = Vec::new();
    for k in 0..log.texts.len()
        invariant
            tv == log.texts@.map_values(|t: String| t@),
            strings_view(media@) == texts_media_classes(tv.take(k as int)),
    {
        proof {
            assert(tv.take(k + 1).drop_last() == tv.take(k as int));
            assert(tv.take(k + 1).last() == log.texts@[k as int]@);
        }
        let found = extract_media_classes(log.texts[k].as_str());
        let ghost before = strings_view(media@);
        let ghost fv = strings_view(found@);
        for j in 0..found.len()
            invariant
                fv == strings_view(found@),
                strings_view(media@) == before + fv.take(j as int),
        {
            let ghost m0 = strings_view(media@);
            media.push(found[j].clone());
            assert(fv.take(j + 1) == fv.take(j as int).push(fv[j as int]));
            assert(strings_view(media@) =~= m0.push(fv[j as int]));
        }
        assert(fv.take(found.len() as int) == fv);
    }
    assert(tv.take(log.texts.len() as int) == tv);
    let mut log2 = RewriteLog::new();
    let ghost mv = strings_view(media@);
    let rule = HtmlRule::ClassCleanup(media);
    assert(rule@ == RuleView::ClassCleanup(mv));
    match rewrite(html, "style", true, &rule, &mut log2) {
        Ok(s) => Ok(s),
        Err(m) => Err(Error::HtmlRewrite(m)),
    }
}

} // verus!
