//! Email-safe class names.
//!
//! Characters that trip email clients' CSS parsers (`/`, `:`, `{`, `}`, `[`,
//! `]`, `%`, `#`) become `-` in `class` attributes, and their escaped forms
//! (`\/`, `\:`, `\{`, `\}`, `\[`, `\]`, `\%`, `\#`, and `\.`) become `-` in
//! `<style>` blocks, so that selectors and class names still agree.
use vstd::prelude::*;
use crate::error::Error;
use crate::html::{attr_get, attr_set, element_attrs, get_attribute, set_attribute, HtmlElement};
use crate::html::{chunk_replacement, chunk_string, chunk_text, replace_chunk};
use crate::rewrite::{rewrite, rewrite_outcome, HtmlRule, RewriteLog, RuleView};
use crate::text::{find, lemma_find_from_facts, lemma_replace_all_at_start, lemma_replace_all_prefix, matches_at, chars_of, join, join_with, replace, replace_all, split_whitespace, split_ws, string_of};
use lol_html::errors::AttributeNameError;
use lol_html::html_content::TextChunk;

verus! {

broadcast use vstd::string::group_string_axioms;

pub open spec fn unsafe_char(c: char) -> bool {
    c == '/' || c == ':' || c == '{' || c == '}' || c == '\x5B' || c == '\x5D' || c == '%' || c == '#'
}

/// A class name with each unsafe character replaced by `-`.
pub open spec fn spec_make_safe(class: Seq<char>) -> Seq<char> {
    class.map_values(|c: char| if unsafe_char(c) { '-' } else { c })
}

/// Makes a class name safe (see `spec_make_safe`).
pub fn make_safe(class: &Vec<char>) -> (r: Vec<char>)
    ensures r@ == spec_make_safe(class@),
{
    let mut out: Vec<char> = Vec::new();
    for i in 0..class.len()
        invariant out@ == spec_make_safe(class@.take(i as int)),
    {
        let c = class[i];
        out.push(if c == '/' || c == ':' || c == '{' || c == '}' || c == '\x5B' || c == '\x5D' || c == '%' || c == '#' { '-' } else { c });
        assert(spec_make_safe(class@.take(i + 1)) =~= spec_make_safe(class@.take(i as int)).push(
            if unsafe_char(class@[i as int]) { '-' } else { class@[i as int] }));
    }
    assert(class@.take(class.len() as int) == class@);
    out
}

/// A class name made safe keeps its length, holds none of the unsafe
/// characters, and is left as it is when made safe again.
pub proof fn lemma_make_safe_is_safe(class: Seq<char>)
    ensures
        spec_make_safe(class).len() == class.len(),
        forall|i: int| 0 <= i < class.len() ==> !unsafe_char(#[trigger] spec_make_safe(class)[i]),
        spec_make_safe(spec_make_safe(class)) == spec_make_safe(class),
{
    assert(spec_make_safe(spec_make_safe(class)) =~= spec_make_safe(class));
}

// ───────────────────────────── classes and selectors agree ─────────────────────────────

/// A class name as a stylesheet's selector writes it, with the unsafe
/// characters in `replaced` already turned into `-` and the others escaped
/// with a backslash.
pub open spec fn escaped_except(c: Seq<char>, replaced: Seq<char>) -> Seq<char>
    decreases c.len(),
{
    if c.len() == 0 {
        seq![]
    } else {
        (if !unsafe_char(c[0]) {
            seq![c[0]]
        } else if replaced.contains(c[0]) {
            seq!['-']
        } else {
            seq!['\\', c[0]]
        }) + escaped_except(c.drop_first(), replaced)
    }
}

/// A class name as a stylesheet's selector writes it: each unsafe character,
/// and each `.`, escaped with a backslash.
pub open spec fn css_escape(c: Seq<char>) -> Seq<char>
    decreases c.len(),
{
    if c.len() == 0 {
        seq![]
    } else {
        (if unsafe_char(c[0]) || c[0] == '.' { seq!['\\', c[0]] } else { seq![c[0]] }) + css_escape(c.drop_first())
    }
}

proof fn lemma_css_escape_without_dots(c: Seq<char>)
    requires
        forall|i: int| 0 <= i < c.len() ==> c[i] != '.',
    ensures
        css_escape(c) == escaped_except(c, seq![]),
    decreases c.len(),
{
    if c.len() > 0 {
        lemma_css_escape_without_dots(c.drop_first());
    }
}

proof fn lemma_all_replaced(c: Seq<char>, replaced: Seq<char>)
    requires
        forall|x: char| unsafe_char(x) ==> replaced.contains(x),
    ensures
        escaped_except(c, replaced) == spec_make_safe(c),
    decreases c.len(),
{
    if c.len() > 0 {
        lemma_all_replaced(c.drop_first(), replaced);
        assert(spec_make_safe(c) =~= seq![if unsafe_char(c[0]) { '-' } else { c[0] }] + spec_make_safe(c.drop_first()));
    }
}

/// Class names and the stylesheet's selectors agree: for a class name with
/// no backslash and no `.`, the pass makes of its escaped selector form what
/// it makes of the name in a `class` attribute.
pub proof fn lemma_classes_and_selectors_agree(c: Seq<char>)
    requires
        forall|i: int| 0 <= i < c.len() ==> c[i] != '\\' && c[i] != '.',
    ensures
        spec_safe_css(css_escape(c)) == spec_make_safe(c),
{
    reveal_strlit("\\/"); reveal_strlit("\\:"); reveal_strlit("\\{"); reveal_strlit("\\}"); reveal_strlit("\\\x5B"); reveal_strlit("\\\x5D"); reveal_strlit("\\%"); reveal_strlit("\\#"); reveal_strlit("\\.");
    reveal_strlit("-");
    assert("\\/"@ =~= seq!['\\', '/']);
    assert("\\:"@ =~= seq!['\\', ':']);
    assert("\\{"@ =~= seq!['\\', '{']);
    assert("\\}"@ =~= seq!['\\', '}']);
    assert("\\\x5B"@ =~= seq!['\\', '\x5B']);
    assert("\\\x5D"@ =~= seq!['\\', '\x5D']);
    assert("\\%"@ =~= seq!['\\', '%']);
    assert("\\#"@ =~= seq!['\\', '#']);
    assert("-"@ =~= seq!['-']);
    lemma_css_escape_without_dots(c);
    let r0: Seq<char> = seq![];
    let r1 = r0.push('/');
    let r2 = r1.push(':');
    let r3 = r2.push('{');
    let r4 = r3.push('}');
    let r5 = r4.push('\x5B');
    let r6 = r5.push('\x5D');
    let r7 = r6.push('%');
    let r8 = r7.push('#');
    lemma_escaped_no_backslash_start(c, r0, '/');
    assert(!r1.contains(':')) by { if r1.contains(':') { let q = choose|q: int| 0 <= q < r1.len() && r1[q] == ':'; } }
    lemma_escaped_no_backslash_start(c, r1, ':');
    assert(!r2.contains('{')) by { if r2.contains('{') { let q = choose|q: int| 0 <= q < r2.len() && r2[q] == '{'; } }
    lemma_escaped_no_backslash_start(c, r2, '{');
    assert(!r3.contains('}')) by { if r3.contains('}') { let q = choose|q: int| 0 <= q < r3.len() && r3[q] == '}'; } }
    lemma_escaped_no_backslash_start(c, r3, '}');
    assert(!r4.contains('\x5B')) by { if r4.contains('\x5B') { let q = choose|q: int| 0 <= q < r4.len() && r4[q] == '\x5B'; } }
    lemma_escaped_no_backslash_start(c, r4, '\x5B');
    assert(!r5.contains('\x5D')) by { if r5.contains('\x5D') { let q = choose|q: int| 0 <= q < r5.len() && r5[q] == '\x5D'; } }
    lemma_escaped_no_backslash_start(c, r5, '\x5D');
    assert(!r6.contains('%')) by { if r6.contains('%') { let q = choose|q: int| 0 <= q < r6.len() && r6[q] == '%'; } }
    lemma_escaped_no_backslash_start(c, r6, '%');
    assert(!r7.contains('#')) by { if r7.contains('#') { let q = choose|q: int| 0 <= q < r7.len() && r7[q] == '#'; } }
    lemma_escaped_no_backslash_start(c, r7, '#');
    assert forall|x: char| unsafe_char(x) implies r8.contains(x) by {
        if x == '/' { assert(r8[0] == x);
        } else if x == ':' { assert(r8[1] == x);
        } else if x == '{' { assert(r8[2] == x);
        } else if x == '}' { assert(r8[3] == x);
        } else if x == '\x5B' { assert(r8[4] == x);
        } else if x == '\x5D' { assert(r8[5] == x);
        } else if x == '%' { assert(r8[6] == x);
        } else if x == '#' { assert(r8[7] == x);
        }
    }
    lemma_all_replaced(c, r8);
    let m = spec_make_safe(c);
    lemma_find_from_facts(m, "\\."@, 0);
    if find(m, "\\."@) is Some {
        let k = find(m, "\\."@)->0;
        assert(m.subrange(k, k + 2)[0] == m[k]);
    }
}

proof fn lemma_escaped_no_backslash_start(c: Seq<char>, replaced: Seq<char>, u: char)
    requires
        forall|i: int| 0 <= i < c.len() ==> c[i] != '\\',
        unsafe_char(u),
        !replaced.contains(u),
    ensures
        replace_all(escaped_except(c, replaced), seq!['\\', u], seq!['-']) == escaped_except(c, replaced.push(u)),
    decreases c.len(),
{
    if c.len() > 0 {
        let x = c[0];
        let rest = c.drop_first();
        let p = seq!['\\', u];
        lemma_escaped_no_backslash_start(rest, replaced, u);
        let t = escaped_except(rest, replaced);
        if unsafe_char(x) && !replaced.contains(x) && x == u {
            lemma_replace_all_at_start(t, p, seq!['-']);
            assert(replaced.push(u).contains(u)) by { assert(replaced.push(u)[replaced.len() as int] == u); }
        } else {
            let piece: Seq<char> = if !unsafe_char(x) { seq![x] } else if replaced.contains(x) { seq!['-'] } else { seq!['\\', x] };
            assert(escaped_except(c, replaced) == piece + t);
            assert forall|j: int| 0 <= j < piece.len() implies !matches_at(piece + t, j, p) by {
                if matches_at(piece + t, j, p) {
                    assert((piece + t).subrange(j, j + 2)[0] == (piece + t)[j]);
                    assert((piece + t).subrange(j, j + 2)[1] == (piece + t)[j + 1]);
                }
            }
            lemma_replace_all_prefix(piece, t, p, seq!['-']);
            if unsafe_char(x) {
                assert(replaced.push(u).contains(x) == replaced.contains(x)) by {
                    if replaced.push(u).contains(x) {
                        let k = choose|k: int| 0 <= k < replaced.push(u).len() && replaced.push(u)[k] == x;
                        if k < replaced.len() {
                            assert(replaced[k] == x);
                        }
                    }
                    if replaced.contains(x) {
                        let k = choose|k: int| 0 <= k < replaced.len() && replaced[k] == x;
                        assert(replaced.push(u)[k] == x);
                    }
                }
            }
        }
        assert(c =~= seq![x] + rest);
    }
}

/// A stylesheet with the escaped unsafe characters replaced by `-`, one
/// escape after the other.
pub open spec fn spec_safe_css(text: Seq<char>) -> Seq<char> {
    let a = replace_all(text, "\\/"@, "-"@);
    let b = replace_all(a, "\\:"@, "-"@);
    let c = replace_all(b, "\\{"@, "-"@);
    let d = replace_all(c, "\\}"@, "-"@);
    let e = replace_all(d, "\\\x5B"@, "-"@);
    let f = replace_all(e, "\\\x5D"@, "-"@);
    let g = replace_all(f, "\\%"@, "-"@);
    let h = replace_all(g, "\\#"@, "-"@);
    replace_all(h, "\\."@, "-"@)
}

/// What the pass does to an element's attributes: the `class` attribute's
/// names, made safe, joined by single spaces.
pub open spec fn spec_element(attrs: Seq<(Seq<char>, Seq<char>)>) -> Seq<(Seq<char>, Seq<char>)> {
    match attr_get(attrs, "class"@) {
        Some(c) => attr_set(attrs, "class"@, join(split_ws(c).map_values(|w: Seq<char>| spec_make_safe(w)), " "@)),
        None => attrs,
    }
}

/// What the pass does to a text chunk of a `<style>` block: it is always
/// replaced, by its safe form.
pub open spec fn spec_text(text: Seq<char>) -> Option<Seq<char>> {
    Some(spec_safe_css(text))
}

/// Makes one element's class names safe.
pub fn on_element(el: &mut HtmlElement) -> (r: Result<(), AttributeNameError>)
    ensures
        r is Ok,
        crate::html::same_frame(*final(el), *old(el)),
        element_attrs(*final(el)) == spec_element(element_attrs(*old(el))),
{
    proof { reveal_strlit("class"); }
    if let Some(classes) = get_attribute(el, "class") {
        let cv = chars_of(classes.as_str());
        let words = split_whitespace(&cv);
        let ghost ws = split_ws(cv@);
        let mut safe: Vec<Vec<char>> = Vec::new();
        for k in 0..words.len()
            invariant
                ws == split_ws(cv@),
                words@.len() == ws.len(),
                forall|j: int| 0 <= j < words@.len() ==> #[trigger] words@[j]@ == ws[j],
                safe@.map_values(|x: Vec<char>| x@) == ws.map_values(|w: Seq<char>| spec_make_safe(w)).take(k as int),
        {
            let ghost before = safe@.map_values(|x: Vec<char>| x@);
            safe.push(make_safe(&words[k]));
            assert(ws.map_values(|w: Seq<char>| spec_make_safe(w)).take(k + 1)
                == ws.map_values(|w: Seq<char>| spec_make_safe(w)).take(k as int).push(spec_make_safe(ws[k as int])));
            assert(safe@.map_values(|x: Vec<char>| x@) =~= before.push(spec_make_safe(ws[k as int])));
        }
        assert(ws.map_values(|w: Seq<char>| spec_make_safe(w)).take(words.len() as int) == ws.map_values(|w: Seq<char>| spec_make_safe(w)));
        let joined = join_with(&safe, " ");
        let js = string_of(joined.as_slice());
        return set_attribute(el, "class", js.as_str());
    }
    Ok(())
}

/// Makes the escapes of one text chunk of a `<style>` block safe.
pub fn on_text(t: &mut TextChunk)
    ensures
        chunk_text(*final(t)) == chunk_text(*old(t)),
        spec_text(chunk_text(*old(t))) matches Some(x) ==> chunk_replacement(*final(t)) == Some(x),
        spec_text(chunk_text(*old(t))) is None ==> chunk_replacement(*final(t)) == chunk_replacement(*old(t)),
{
    proof {
        reveal_strlit("\\/"); reveal_strlit("\\:"); reveal_strlit("\\{"); reveal_strlit("\\}"); reveal_strlit("\\\x5B"); reveal_strlit("\\\x5D"); reveal_strlit("\\%"); reveal_strlit("\\#"); reveal_strlit("\\.");
    }
    let css = chunk_string(t);
    let v = chars_of(css.as_str());
    let a = replace(&v, "\\/", "-");
    let b = replace(&a, "\\:", "-");
    let c = replace(&b, "\\{", "-");
    let d = replace(&c, "\\}", "-");
    let e = replace(&d, "\\\x5B", "-");
    let f = replace(&e, "\\\x5D", "-");
    let g = replace(&f, "\\%", "-");
    let h = replace(&g, "\\#", "-");
    let i = replace(&h, "\\.", "-");
    let s = string_of(i.as_slice());
    replace_chunk(t, s.as_str());
}

/// Makes class names and their selectors email-safe.
pub fn process(html: &str) -> (r: Result<String, Error>)
    ensures
        r is Ok <==> rewrite_outcome(html@, "style"@, true, RuleView::SafeClassNames) is Ok,
        r matches Ok(s) ==> rewrite_outcome(html@, "style"@, true, RuleView::SafeClassNames)->Ok_0.0 == s@,
        r matches Err(e) ==> (e matches Error::HtmlRewrite(m) && rewrite_outcome(html@, "style"@, true, RuleView::SafeClassNames) matches Err(o) && o == m@),
{
    proof { reveal_strlit("style"); }
    let mut log = RewriteLog::new();
    match rewrite(html, "style", true, &HtmlRule::SafeClassNames, &mut log) {
        Ok(s) => Ok(s),
        Err(m) => Err(Error::HtmlRewrite(m)),
    }
}

} // verus!
