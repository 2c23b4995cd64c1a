//! Removal of unused rules from `<style>` blocks.
//!
//! The document's tag names, class names and ids are collected first; then
//! every rule of every `<style>` block whose selectors match none of them is
//! dropped. At-rules (`@media`, `@font-face`, ...) are always kept, and
//! class names on the email-client safelist are treated as used.
use vstd::prelude::*;
use crate::error::Error;
use crate::html::{chunk_replacement, chunk_string, chunk_text, replace_chunk};
use crate::rewrite::{rewrite, rewrite_outcome, HtmlRule, LogView, RewriteLog, RuleView};
use crate::text::{
    ascii_lower, chars_of, close_index, contains, find, find_char, find_from, find_in, is_whitespace,
    is_ws, lemma_close_index, lemma_close_index_shift, lemma_find_from_facts, lemma_find_suffix, lit,
    contains_string, lower_ascii, matching_close, push_range, same, skip_ws, slice, split_char, split_on, split_whitespace,
    split_ws, starts_with, starts_with_at, string_of, trim, trim_bounds, trim_start, trimmed,
};
use lol_html::html_content::TextChunk;

verus! {

broadcast use vstd::string::group_string_axioms;

// ───────────────────────────── usage ─────────────────────────────

/// The tag names (lowercased), class names and ids in use in a document.
#[derive(Debug, Clone)]
pub struct Usage {
    pub tags: Vec<String>,
    pub classes: Vec<String>,
    pub ids: Vec<String>,
}

pub struct UsageView {
    pub tags: Seq<Seq<char>>,
    pub classes: Seq<Seq<char>>,
    pub ids: Seq<Seq<char>>,
}

impl View for Usage {
    type V = UsageView;

    open spec fn view(&self) -> UsageView {
        UsageView {
            tags: self.tags@.map_values(|s: String| s@),
            classes: self.classes@.map_values(|s: String| s@),
            ids: self.ids@.map_values(|s: String| s@),
        }
    }
}

pub open spec fn spec_has_class(u: UsageView, c: Seq<char>) -> bool {
    u.classes.contains(c)
}

pub open spec fn spec_has_tag(u: UsageView, t: Seq<char>) -> bool {
    u.tags.contains(ascii_lower(t))
}

pub open spec fn spec_has_id(u: UsageView, id: Seq<char>) -> bool {
    u.ids.contains(id)
}

/// `s` with `x` added at the end, unless it is there already.
pub open spec fn add_new(s: Seq<Seq<char>>, x: Seq<char>) -> Seq<Seq<char>> {
    if s.contains(x) { s } else { s.push(x) }
}

/// `s` with each of `xs` added in turn by `add_new`.
pub open spec fn add_all_new(s: Seq<Seq<char>>, xs: Seq<Seq<char>>) -> Seq<Seq<char>>
    decreases xs.len(),
{
    if xs.len() == 0 { s } else { add_new(add_all_new(s, xs.drop_last()), xs.last()) }
}

/// The usage recorded from a document's elements, as sets: each lowercased
/// tag name, each white-space-separated class name and each id, once, in
/// the order of first use.
pub open spec fn spec_usage(elements: Seq<(Seq<char>, Option<Seq<char>>, Option<Seq<char>>)>) -> UsageView
    decreases elements.len(),
{
    if elements.len() == 0 {
        UsageView { tags: seq![], classes: seq![], ids: seq![] }
    } else {
        let u = spec_usage(elements.drop_last());
        let (tag, class, id) = elements.last();
        UsageView {
            tags: add_new(u.tags, ascii_lower(tag)),
            classes: match class {
                Some(c) => add_all_new(u.classes, split_ws(c)),
                None => u.classes,
            },
            ids: match id {
                Some(i) => add_new(u.ids, i),
                None => u.ids,
            },
        }
    }
}

/// No tag name, class name or id is recorded twice.
pub open spec fn usage_wf(u: UsageView) -> bool {
    u.tags.no_duplicates() && u.classes.no_duplicates() && u.ids.no_duplicates()
}

/// `add_new` keeps a sequence free of repeats, and adds exactly `x`.
pub proof fn lemma_add_new(s: Seq<Seq<char>>, x: Seq<char>)
    ensures
        s.no_duplicates() ==> add_new(s, x).no_duplicates(),
        forall|y: Seq<char>| #[trigger] add_new(s, x).contains(y) <==> (s.contains(y) || y == x),
{
    if !s.contains(x) {
        assert forall|y: Seq<char>| #[trigger] s.push(x).contains(y) <==> (s.contains(y) || y == x) by {
            if s.contains(y) {
                let k = choose|k: int| 0 <= k < s.len() && s[k] == y;
                assert(s.push(x)[k] == y);
            }
            if y == x {
                assert(s.push(x)[s.len() as int] == y);
            }
            if s.push(x).contains(y) {
                let k = choose|k: int| 0 <= k < s.len() + 1 && s.push(x)[k] == y;
                if k < s.len() {
                    assert(s[k] == y);
                }
            }
        }
        if s.no_duplicates() {
            assert forall|i: int, j: int| 0 <= i < s.push(x).len() && 0 <= j < s.push(x).len() && i != j
                implies s.push(x)[i] != s.push(x)[j] by {
                if i == s.len() as int {
                    assert(s[j] == s.push(x)[j]);
                } else if j == s.len() as int {
                    assert(s[i] == s.push(x)[i]);
                }
            }
        }
    }
}

/// `add_all_new` keeps a sequence free of repeats, and adds exactly `xs`.
pub proof fn lemma_add_all_new(s: Seq<Seq<char>>, xs: Seq<Seq<char>>)
    ensures
        s.no_duplicates() ==> add_all_new(s, xs).no_duplicates(),
        forall|y: Seq<char>| #[trigger] add_all_new(s, xs).contains(y) <==> (s.contains(y) || xs.contains(y)),
    decreases xs.len(),
{
    if xs.len() > 0 {
        lemma_add_all_new(s, xs.drop_last());
        lemma_add_new(add_all_new(s, xs.drop_last()), xs.last());
        assert forall|y: Seq<char>| xs.contains(y) <==> (xs.drop_last().contains(y) || y == xs.last()) by {
            if xs.contains(y) {
                let k = choose|k: int| 0 <= k < xs.len() && xs[k] == y;
                if k < xs.len() - 1 {
                    assert(xs.drop_last()[k] == y);
                }
            }
            if xs.drop_last().contains(y) {
                let k = choose|k: int| 0 <= k < xs.len() - 1 && xs.drop_last()[k] == y;
                assert(xs[k] == y);
            }
            if y == xs.last() {
                assert(xs[xs.len() - 1] == y);
            }
        }
    }
}

/// The recorded usage holds each name once.
pub proof fn lemma_usage_wf(elements: Seq<(Seq<char>, Option<Seq<char>>, Option<Seq<char>>)>)
    ensures
        usage_wf(spec_usage(elements)),
    decreases elements.len(),
{
    if elements.len() > 0 {
        let u = spec_usage(elements.drop_last());
        let (tag, class, id) = elements.last();
        lemma_usage_wf(elements.drop_last());
        lemma_add_new(u.tags, ascii_lower(tag));
        match class {
            Some(c) => lemma_add_all_new(u.classes, split_ws(c)),
            None => {},
        }
        match id {
            Some(i) => lemma_add_new(u.ids, i),
            None => {},
        }
    }
}

impl Default for Usage {
    /// Nothing in use.
    fn default() -> (r: Self)
        ensures
            r@.tags.len() == 0,
            r@.classes.len() == 0,
            r@.ids.len() == 0,
    {
        Usage { tags: Vec::new(), classes: Vec::new(), ids: Vec::new() }
    }
}

impl Usage {
    pub fn has_class(&self, class: &Vec<char>) -> (r: bool)
        ensures r == spec_has_class(self@, class@),
    {
        contains_string(&self.classes, class)
    }

    pub fn has_tag(&self, tag: &Vec<char>) -> (r: bool)
        ensures r == spec_has_tag(self@, tag@),
    {
        let l = lower_ascii(tag);
        contains_string(&self.tags, &l)
    }

    pub fn has_id(&self, id: &Vec<char>) -> (r: bool)
        ensures r == spec_has_id(self@, id@),
    {
        contains_string(&self.ids, id)
    }
}

/// Builds the usage from the elements a collecting pass recorded.
pub fn usage_from_log(log: &RewriteLog) -> (u: Usage)
    ensures
        u@ == spec_usage(log@.elements),
        usage_wf(u@),
{
    let mut u = Usage::default();
    let ghost es = log@.elements;
    assert(u@.tags =~= seq![]);
    assert(u@.classes =~= seq![]);
    assert(u@.ids =~= seq![]);
    for i in 0..log.elements.len()
        invariant
            es == log@.elements,
            u@ == spec_usage(es.take(i as int)),
    {
        let e = &log.elements[i];
        proof {
            assert(es.take(i + 1).drop_last() == es.take(i as int));
            assert(es.take(i + 1).last() == es[i as int]);
        }
        let ghost u0 = u@;
        let tv = chars_of(e.tag.as_str());
        let lt = lower_ascii(&tv);
        if !contains_string(&u.tags, &lt) {
            u.tags.push(string_of(lt.as_slice()));
        }
        assert(u@.tags =~= add_new(u0.tags, ascii_lower(es[i as int].0)));
        if let Some(c) = &e.class {
            let cv = chars_of(c.as_str());
            let words = split_whitespace(&cv);
            let ghost before = u@.classes;
            for j in 0..words.len()
                invariant
                    words@.len() == split_ws(cv@).len(),
                    forall|k: int| 0 <= k < words@.len() ==> #[trigger] words@[k]@ == split_ws(cv@)[k],
                    u@.classes == add_all_new(before, split_ws(cv@).take(j as int)),
                    u@.tags == add_new(u0.tags, ascii_lower(es[i as int].0)),
                    u@.ids == u0.ids,
            {
                let ghost c0 = u@.classes;
                if !contains_string(&u.classes, &words[j]) {
                    u.classes.push(string_of(words[j].as_slice()));
                }
                assert(u@.classes =~= add_new(c0, split_ws(cv@)[j as int]));
                assert(split_ws(cv@).take(j + 1).drop_last() == split_ws(cv@).take(j as int));
            }
            assert(split_ws(cv@).take(words.len() as int) == split_ws(cv@));
        } else {
        }
        if let Some(id) = &e.id {
            let ghost i0 = u@.ids;
            let idv = chars_of(id.as_str());
            if !contains_string(&u.ids, &idv) {
                u.ids.push(id.clone());
            }
            assert(u@.ids =~= add_new(i0, id@));
        }
    }
    assert(es.take(log.elements.len() as int) == es);
    proof { lemma_usage_wf(es); }
    u
}

// ───────────────────────────── safelist ─────────────────────────────

/// Class names kept whatever the document uses: email-client prefixes and a
/// few exact names.
pub open spec fn spec_safelisted(c: Seq<char>) -> bool {
    ||| starts_with(c, "gmail"@) || starts_with(c, "apple"@) || starts_with(c, "ios"@)
    ||| starts_with(c, "outlook"@) || starts_with(c, "ox-"@) || starts_with(c, "bloop_"@)
    ||| starts_with(c, "moz-"@) || starts_with(c, "Singleton"@) || starts_with(c, "lang"@)
    ||| starts_with(c, "edo"@) || starts_with(c, "mail-"@)
    ||| c == "body"@ || c == "unused"@ || c == "data-ogs"@
}

/// Whether a class name is safelisted.
pub fn is_safelisted(class: &Vec<char>) -> (r: bool)
    ensures r == spec_safelisted(class@),
{
    starts_with_at(class, 0, "gmail") || starts_with_at(class, 0, "apple") || starts_with_at(class, 0, "ios")
        || starts_with_at(class, 0, "outlook") || starts_with_at(class, 0, "ox-")
        || starts_with_at(class, 0, "bloop_") || starts_with_at(class, 0, "moz-")
        || starts_with_at(class, 0, "Singleton") || starts_with_at(class, 0, "lang")
        || starts_with_at(class, 0, "edo") || starts_with_at(class, 0, "mail-")
        || crate::text::eq_str(class, "body") || crate::text::eq_str(class, "unused")
        || crate::text::eq_str(class, "data-ogs")
}

// ───────────────────────────── selectors ─────────────────────────────

pub open spec fn is_combinator(c: char) -> bool {
    c == ' ' || c == '>' || c == '+' || c == '~'
}

/// The end of the last run of non-combinator characters in `p[..j]`, or 0.
pub open spec fn last_run_end(p: Seq<char>, j: int) -> int
    decreases j,
{
    if j <= 0 || j > p.len() {
        0
    } else if !is_combinator(p[j - 1]) {
        j
    } else {
        last_run_end(p, j - 1)
    }
}

/// Where the run of non-combinator characters ending at `e` starts.
pub open spec fn run_start(p: Seq<char>, e: int) -> int
    decreases e,
{
    if 0 < e <= p.len() && !is_combinator(p[e - 1]) {
        run_start(p, e - 1)
    } else {
        e
    }
}

/// The rightmost compound selector: the last non-empty piece between
/// combinators (space, `>`, `+`, `~`), or the whole part when there is none.
pub open spec fn rightmost(p: Seq<char>) -> Seq<char> {
    let e = last_run_end(p, p.len() as int);
    if e == 0 {
        p
    } else {
        p.subrange(run_start(p, e), e)
    }
}

pub open spec fn is_selector_mark(c: char) -> bool {
    c == '.' || c == '#' || c == '[' || c == ':'
}

/// How many characters an attribute selector takes after its `[`: up to and
/// including the first `]`, or all that is left.
pub open spec fn bracket_take(s: Seq<char>) -> int {
    match find(s, seq![']']) {
        Some(k) => k + 1,
        None => s.len() as int,
    }
}

/// The simple selectors of a compound selector: each `.`, `#`, `[` or `:`
/// starts a new token (a `[` token runs through its `]`); `cur` is the token
/// being read.
pub open spec fn sel_tokens(s: Seq<char>, cur: Seq<char>) -> Seq<Seq<char>>
    decreases s.len(),
{
    if s.len() == 0 {
        if cur.len() > 0 { seq![cur] } else { seq![] }
    } else if is_selector_mark(s[0]) {
        let before: Seq<Seq<char>> = if cur.len() > 0 { seq![cur] } else { seq![] };
        if s[0] == '[' {
            let rest = s.drop_first();
            let n = bracket_take(rest);
            proof { lemma_find_from_facts(rest, seq![']'], 0); }
            if 0 <= n <= rest.len() {
                before + sel_tokens(rest.subrange(n, rest.len() as int), seq!['['] + rest.subrange(0, n))
            } else {
                before
            }
        } else {
            before + sel_tokens(s.drop_first(), seq![s[0]])
        }
    } else {
        sel_tokens(s.drop_first(), cur.push(s[0]))
    }
}

/// Whether the simple selectors match the usage, read in order: a class
/// (used or safelisted), an id or a tag that matches lets the check go on, one
/// that does not fails it; an attribute selector, a pseudo-class or `*` is
/// skipped and the check goes on; a functional pseudo-class (one with `(`,
/// whose argument the tokens split) accepts what is left; running out of
/// tokens accepts.
pub open spec fn tokens_ok(toks: Seq<Seq<char>>, u: UsageView) -> bool
    decreases toks.len(),
{
    if toks.len() == 0 {
        true
    } else {
        let t = toks[0];
        if t.len() > 0 && t[0] == '.' {
            if spec_has_class(u, t.drop_first()) || spec_safelisted(t.drop_first()) {
                tokens_ok(toks.drop_first(), u)
            } else {
                false
            }
        } else if t.len() > 0 && t[0] == '#' {
            if spec_has_id(u, t.drop_first()) { tokens_ok(toks.drop_first(), u) } else { false }
        } else if t.len() > 0 && t[0] == ':' && contains(t, seq!['(']) {
            true
        } else if t.len() > 0 && (t[0] == '[' || t[0] == ':') {
            tokens_ok(toks.drop_first(), u)
        } else if t == seq!['*'] {
            tokens_ok(toks.drop_first(), u)
        } else {
            if spec_has_tag(u, t) { tokens_ok(toks.drop_first(), u) } else { false }
        }
    }
}

/// Whether one selector of a list matches: judged by its rightmost compound selector.
pub open spec fn spec_part_matches(part: Seq<char>, u: UsageView) -> bool {
    part.len() > 0 && tokens_ok(sel_tokens(rightmost(part), seq![]), u)
}

/// Whether a rule is kept: its selector is not empty, and it has template
/// markers or one of its comma-separated selectors matches.
pub open spec fn spec_keep_selector(sel: Seq<char>, u: UsageView) -> bool {
    &&& sel.len() > 0
    &&& (contains(sel, "{{"@) || contains(sel, "{%"@)
        || exists|k: int| 0 <= k < split_char(sel, ',').len()
            && #[trigger] spec_part_matches(trim(split_char(sel, ',')[k]), u))
}

// ───────────────────────────── rules ─────────────────────────────

/// Scanning an at-rule from `i`: it ends after the `}` that closes its first
/// block, or after a `;` met before any block; else it runs to the end.
pub open spec fn at_rule_scan(s: Seq<char>, i: int, depth: int, found: bool) -> int
    decreases s.len() - i,
{
    if i < 0 || i >= s.len() {
        s.len() as int
    } else if s[i] == '{' {
        at_rule_scan(s, i + 1, depth + 1, true)
    } else if s[i] == '}' {
        if depth - 1 == 0 { i + 1 } else { at_rule_scan(s, i + 1, depth - 1, found) }
    } else if s[i] == ';' && !found && depth == 0 {
        i + 1
    } else {
        at_rule_scan(s, i + 1, depth, found)
    }
}

pub open spec fn at_rule_end(s: Seq<char>) -> int {
    at_rule_scan(s, 0, 0, false)
}

/// A regular rule at the start of `s`: where it ends (after the brace that
/// closes its block, just after its `{` when unclosed, or the end when it has
/// no block) and its trimmed selector.
pub open spec fn rule_parts(s: Seq<char>) -> (int, Seq<char>) {
    match find(s, seq!['{']) {
        None => (s.len() as int, seq![]),
        Some(bp) => (
            match close_index(s, bp + 1, 1, '{', '}') {
                Some(k) => k + 1,
                None => bp + 1,
            },
            trim(s.subrange(0, bp)),
        ),
    }
}

pub proof fn lemma_at_rule_scan(s: Seq<char>, i: int, depth: int, found: bool)
    requires 0 <= i <= s.len(),
    ensures i < at_rule_scan(s, i, depth, found) <= s.len() || (i == s.len() && at_rule_scan(s, i, depth, found) == s.len()),
    decreases s.len() - i,
{
    if i < s.len() {
        lemma_at_rule_scan(s, i + 1, depth + 1, true);
        lemma_at_rule_scan(s, i + 1, depth - 1, found);
        lemma_at_rule_scan(s, i + 1, depth, found);
    }
}

pub proof fn lemma_rule_parts(s: Seq<char>)
    requires s.len() > 0,
    ensures 0 < rule_parts(s).0 <= s.len(),
{
    lemma_find_from_facts(s, seq!['{'], 0);
    if let Some(bp) = find(s, seq!['{']) {
        lemma_close_index(s, bp + 1, 1, '{', '}');
    }
}

/// The rules of a stylesheet that are kept, with the white space between
/// them: white space is copied, at-rules are kept, blank rules are dropped,
/// and regular rules are kept when their selector is (see `spec_keep_selector`).
pub open spec fn purge_scan(r: Seq<char>, u: UsageView) -> Seq<char>
    decreases r.len(),
{
    if r.len() == 0 {
        seq![]
    } else if is_ws(r[0]) {
        seq![r[0]] + purge_scan(r.drop_first(), u)
    } else if r[0] == '@' {
        let end = at_rule_end(r);
        proof { lemma_at_rule_scan(r, 0, 0, false); }
        let rule = r.subrange(0, end);
        (if spec_keep_at_rule(rule) { rule } else { seq![] })
            + purge_scan(r.subrange(end, r.len() as int), u)
    } else {
        let (end, sel) = rule_parts(r);
        proof { lemma_rule_parts(r); }
        let text = r.subrange(0, end);
        let rest = purge_scan(r.subrange(end, r.len() as int), u);
        if trim(text).len() == 0 {
            rest
        } else if spec_keep_selector(sel, u) {
            text + rest
        } else {
            rest
        }
    }
}

/// A stylesheet purged of unused rules; one holding template markers (`{{` or
/// `{%`) is left as it is.
pub open spec fn spec_purge(css: Seq<char>, u: UsageView) -> Seq<char> {
    if contains(css, "{{"@) || contains(css, "{%"@) {
        css
    } else {
        purge_scan(css, u)
    }
}

// ───────────────────────────── laws ─────────────────────────────

/// A stylesheet with template markers (`{{` or `{%`) is left as it is.
pub proof fn lemma_template_css_untouched(css: Seq<char>, u: UsageView)
    requires
        contains(css, "{{"@) || contains(css, "{%"@),
    ensures
        spec_purge(css, u) == css,
{
}

/// An at-rule is always kept, whatever the document uses: the scan copies it
/// whole and goes on after it.
pub proof fn lemma_at_rule_kept(r: Seq<char>, u: UsageView)
    requires
        r.len() > 0,
        r[0] == '@',
    ensures
        purge_scan(r, u) == r.subrange(0, at_rule_end(r)) + purge_scan(r.subrange(at_rule_end(r), r.len() as int), u),
{
    lemma_at_rule_scan(r, 0, 0, false);
    let rule = r.subrange(0, at_rule_end(r));
    assert(rule[0] == '@');
    assert(trim_start(rule) == rule);
    assert(rule.subrange(0, 1) =~= seq!['@']);
}

// ───────────────────────────── implementation ─────────────────────────────

fn is_comb(c: char) -> (r: bool)
    ensures r == is_combinator(c),
{
    c == ' ' || c == '>' || c == '+' || c == '~'
}

/// The rightmost compound selector of a selector (see `rightmost`).
fn rightmost_of(p: &Vec<char>) -> (r: Vec<char>)
    ensures r@ == rightmost(p@),
{
    let mut e = p.len();
    while e > 0 && is_comb(p[e - 1])
        invariant
            e <= p.len(),
            last_run_end(p@, p@.len() as int) == last_run_end(p@, e as int),
        decreases e,
    {
        e = e - 1;
    }
    if e == 0 {
        return slice(p, 0, p.len());
    }
    let mut st = e;
    while st > 0 && !is_comb(p[st - 1])
        invariant
            st <= e <= p.len(),
            run_start(p@, e as int) == run_start(p@, st as int),
        decreases st,
    {
        st = st - 1;
    }
    assert(p@.subrange(0, p@.len() as int) == p@);
    slice(p, st, e)
}

/// The simple selectors of a compound selector (see `sel_tokens`).
pub fn selector_tokens(s: &Vec<char>) -> (r: Vec<Vec<char>>)
    ensures
        r@.len() == sel_tokens(s@, seq![]).len(),
        forall|k: int| 0 <= k < r@.len() ==> #[trigger] r@[k]@ == sel_tokens(s@, seq![])[k],
{
    let mut toks: Vec<Vec<char>> = Vec::new();
    let mut cur: Vec<char> = Vec::new();
    let mut i: usize = 0;
    let ghost done: Seq<Seq<char>> = seq![];
    assert(s@.subrange(0, s@.len() as int) == s@);
    while i < s.len()
        invariant
            i <= s.len(),
            done + sel_tokens(s@.subrange(i as int, s@.len() as int), cur@) == sel_tokens(s@, seq![]),
            toks@.len() == done.len(),
            forall|k: int| 0 <= k < toks@.len() ==> #[trigger] toks@[k]@ == done[k],
        decreases s.len() - i,
    {
        let ghost r = s@.subrange(i as int, s@.len() as int);
        assert(r.drop_first() == s@.subrange(i + 1, s@.len() as int));
        assert(r[0] == s@[i as int]);
        let c = s[i];
        if c == '.' || c == '#' || c == '[' || c == ':' {
            let ghost before: Seq<Seq<char>> = if cur@.len() > 0 { seq![cur@] } else { seq![] };
            if cur.len() > 0 {
                let old_cur = cur;
                toks.push(old_cur);
                cur = Vec::new();
                proof { done = done.push(before[0]); }
            } else {
                cur = Vec::new();
            }
            cur.push(c);
            if c == '[' {
                let ghost rest = r.drop_first();
                proof {
                    lemma_find_suffix(s@, seq![']'], i + 1);
                    lemma_find_from_facts(s@, seq![']'], i + 1);
                    assert(rest == s@.subrange(i + 1, s@.len() as int));
                    lemma_find_from_facts(rest, seq![']'], 0);
                }
                let end = match find_char(s, ']', i + 1) {
                    Some(k) => k + 1,
                    None => s.len(),
                };
                push_range(&mut cur, s, i + 1, end);
                proof {
                    assert(rest.subrange(0, end - i - 1) == s@.subrange(i + 1, end as int));
                    assert(rest.subrange(end - i - 1, rest.len() as int) == s@.subrange(end as int, s@.len() as int));
                    assert(cur@ =~= seq!['['] + rest.subrange(0, end - i - 1));
                    assert(done + sel_tokens(s@.subrange(end as int, s@.len() as int), cur@)
                        =~= (done.take(done.len() - before.len()) + before) + sel_tokens(s@.subrange(end as int, s@.len() as int), cur@));
                }
                i = end;
            } else {
                proof {
                    assert(cur@ =~= seq![c]);
                }
                i = i + 1;
            }
            proof {
                let d0 = done.take(done.len() - before.len());
                assert(d0 + before == done);
                assert(done + sel_tokens(s@.subrange(i as int, s@.len() as int), cur@)
                    == d0 + (before + sel_tokens(s@.subrange(i as int, s@.len() as int), cur@)));
            }
        } else {
            cur.push(c);
            i = i + 1;
        }
    }
    proof {
        assert(s@.subrange(i as int, s@.len() as int) =~= Seq::<char>::empty());
    }
    if cur.len() > 0 {
        toks.push(cur);
        proof { done = done.push(cur@); }
    } else {
        assert(done + seq![] == done);
    }
    toks
}

/// Whether simple selectors match the usage (see `tokens_ok`).
fn tokens_match(toks: &Vec<Vec<char>>, u: &Usage) -> (r: bool)
    ensures r == tokens_ok(toks@.map_values(|t: Vec<char>| t@), u@),
{
    let ghost tv = toks@.map_values(|t: Vec<char>| t@);
    let mut i: usize = 0;
    assert(tv.subrange(0, tv.len() as int) == tv);
    while i < toks.len()
        invariant
            i <= toks.len(),
            tv == toks@.map_values(|t: Vec<char>| t@),
            tokens_ok(tv, u@) == tokens_ok(tv.subrange(i as int, tv.len() as int), u@),
        decreases toks.len() - i,
    {
        let ghost rest = tv.subrange(i as int, tv.len() as int);
        assert(rest[0] == toks@[i as int]@);
        assert(rest.drop_first() == tv.subrange(i + 1, tv.len() as int));
        let t = &toks[i];
        if t.len() > 0 && t[0] == '.' {
            let name = slice(t, 1, t.len());
            assert(name@ == t@.drop_first());
            if !(u.has_class(&name) || is_safelisted(&name)) {
                return false;
            }
        } else if t.len() > 0 && t[0] == '#' {
            let name = slice(t, 1, t.len());
            assert(name@ == t@.drop_first());
            if !u.has_id(&name) {
                return false;
            }
        } else if t.len() > 0 && t[0] == ':' && find_char(t, '(', 0).is_some() {
            return true;
        } else if t.len() > 0 && (t[0] == '[' || t[0] == ':') {
        } else if t.len() == 1 && t[0] == '*' {
            assert(t@ =~= seq!['*']);
        } else {
            proof {
                if t@ == seq!['*'] {
                    assert(t@.len() == 1 && t@[0] == '*');
                }
            }
            if !u.has_tag(t) {
                return false;
            }
        }
        i = i + 1;
    }
    assert(tv.subrange(i as int, tv.len() as int) =~= Seq::<Seq<char>>::empty());
    true
}

/// Whether one selector of a list matches the usage (see `spec_part_matches`).
pub fn selector_part_matches(part: &Vec<char>, u: &Usage) -> (r: bool)
    ensures r == spec_part_matches(part@, u@),
{
    if part.len() == 0 {
        return false;
    }
    let rm = rightmost_of(part);
    let toks = selector_tokens(&rm);
    assert(toks@.map_values(|t: Vec<char>| t@) =~= sel_tokens(rm@, seq![]));
    tokens_match(&toks, u)
}

/// Whether a rule with this selector is kept (see `spec_keep_selector`).
pub fn should_keep_selector(sel: &Vec<char>, u: &Usage) -> (r: bool)
    ensures r == spec_keep_selector(sel@, u@),
{
    if sel.len() == 0 {
        return false;
    }
    let a = lit("{{");
    let b = lit("{%");
    if find_in(sel, &a, 0).is_some() || find_in(sel, &b, 0).is_some() {
        return true;
    }
    let parts = split_on(sel, ',');
    let ghost ps = split_char(sel@, ',');
    for k in 0..parts.len()
        invariant
            ps == split_char(sel@, ','),
            parts@.len() == ps.len(),
            forall|j: int| 0 <= j < parts@.len() ==> #[trigger] parts@[j]@ == ps[j],
            forall|j: int| 0 <= j < k ==> !spec_part_matches(trim(#[trigger] ps[j]), u@),
    {
        let t = trimmed(&parts[k]);
        if selector_part_matches(&t, u) {
            assert(spec_part_matches(trim(ps[k as int]), u@));
            return true;
        }
    }
    false
}

/// An at-rule is kept whole: it is one when its text starts with `@`
/// after leading white space.
pub open spec fn spec_keep_at_rule(rule: Seq<char>) -> bool {
    starts_with(trim_start(rule), seq!['@'])
}

/// Whether an at-rule is kept (see `spec_keep_at_rule`); the usage plays no part.
pub fn should_keep_at_rule(rule: &Vec<char>, _usage: &Usage) -> (r: bool)
    ensures r == spec_keep_at_rule(rule@),
{
    let st = skip_ws(rule, 0, rule.len());
    proof {
        assert(rule@.subrange(0, rule@.len() as int) == rule@);
        assert(trim_start(rule@) == rule@.subrange(st as int, rule@.len() as int));
        let x = rule@.subrange(st as int, rule@.len() as int);
        if st < rule@.len() {
            assert(x.subrange(0, 1) =~= seq![rule@[st as int]]);
            if x.subrange(0, 1) == seq!['@'] {
                assert(x.subrange(0, 1)[0] == '@');
            }
        }
    }
    st < rule.len() && rule[st] == '@'
}

/// Where the at-rule starting at `v[from]` ends (see `at_rule_end`).
pub fn read_at_rule(v: &Vec<char>, from: usize) -> (r: usize)
    requires from < v.len(),
    ensures
        r == from + at_rule_end(v@.subrange(from as int, v@.len() as int)),
        from < r <= v.len(),
{
    let ghost s = v@.subrange(from as int, v@.len() as int);
    proof { lemma_at_rule_scan(s, 0, 0, false); }
    let mut depth: i128 = 0;
    let mut found = false;
    let mut i = from;
    while i < v.len()
        invariant
            from <= i <= v.len(),
            s == v@.subrange(from as int, v@.len() as int),
            -((i - from) as int) <= depth <= (i - from) as int,
            at_rule_end(s) == at_rule_scan(s, (i - from) as int, depth as int, found),
        decreases v.len() - i,
    {
        assert(s[i - from] == v@[i as int]);
        let c = v[i];
        if c == '{' {
            depth = depth + 1;
            found = true;
        } else if c == '}' {
            if depth - 1 == 0 {
                return i + 1;
            }
            depth = depth - 1;
        } else if c == ';' && !found && depth == 0 {
            return i + 1;
        }
        i = i + 1;
    }
    v.len()
}

/// The regular rule starting at `v[from]`: where it ends and where its
/// selector lies (see `rule_parts`).
pub fn read_rule(v: &Vec<char>, from: usize) -> (r: (usize, usize, usize))
    requires from < v.len(),
    ensures
        from < r.0 <= v.len(),
        r.1 <= r.2 <= v.len(),
        from + rule_parts(v@.subrange(from as int, v@.len() as int)).0 == r.0,
        rule_parts(v@.subrange(from as int, v@.len() as int)).1 == v@.subrange(r.1 as int, r.2 as int),
{
    let ghost s = v@.subrange(from as int, v@.len() as int);
    proof {
        lemma_rule_parts(s);
        lemma_find_suffix(v@, seq!['{'], from as int);
        lemma_find_from_facts(v@, seq!['{'], from as int);
    }
    match find_char(v, '{', from) {
        None => (v.len(), 0, 0),
        Some(bp) => {
            let (a, b) = trim_bounds(v, from, bp);
            proof {
                assert(s.subrange(0, bp - from) == v@.subrange(from as int, bp as int));
                lemma_close_index_shift(v@, from as int, bp + 1, 1, '{', '}');
                lemma_close_index_shift(v@, bp + 1, bp + 1, 1, '{', '}');
            }
            let end = match matching_close(v, bp + 1, '{', '}') {
                Some(k) => bp + 1 + k + 1,
                None => bp + 1,
            };
            (end, a, b)
        },
    }
}

/// A stylesheet purged of unused rules (see `spec_purge`).
pub fn purge_css_rules(css: &Vec<char>, u: &Usage) -> (r: Vec<char>)
    ensures r@ == spec_purge(css@, u@),
{
    let a = lit("{{");
    let b = lit("{%");
    if find_in(css, &a, 0).is_some() || find_in(css, &b, 0).is_some() {
        return slice(css, 0, css.len());
    }
    let mut out: Vec<char> = Vec::new();
    let mut i: usize = 0;
    assert(css@.subrange(0, css@.len() as int) == css@);
    while i < css.len()
        invariant
            i <= css.len(),
            out@ + purge_scan(css@.subrange(i as int, css@.len() as int), u@) == purge_scan(css@, u@),
        decreases css.len() - i,
    {
        let ghost r = css@.subrange(i as int, css@.len() as int);
        assert(r[0] == css@[i as int]);
        let c = css[i];
        if is_whitespace(c) {
            assert(r.drop_first() == css@.subrange(i + 1, css@.len() as int));
            out.push(c);
            i = i + 1;
        } else if c == '@' {
            let end = read_at_rule(css, i);
            let rule = slice(css, i, end);
            proof {
                assert(r.subrange(0, end - i) == rule@);
                assert(r.subrange(end - i, r.len() as int) == css@.subrange(end as int, css@.len() as int));
            }
            if should_keep_at_rule(&rule, u) {
                crate::text::push_all(&mut out, &rule);
            } else {
                assert(out@ + seq![] == out@);
            }
            i = end;
        } else {
            let (end, sa, sb) = read_rule(css, i);
            let text = slice(css, i, end);
            let t = trimmed(&text);
            proof {
                assert(r.subrange(0, end - i) == text@);
                assert(r.subrange(end - i, r.len() as int) == css@.subrange(end as int, css@.len() as int));
            }
            if t.len() > 0 {
                let sel = slice(css, sa, sb);
                if should_keep_selector(&sel, u) {
                    crate::text::push_all(&mut out, &text);
                }
            }
            i = end;
        }
    }
    assert(css@.subrange(i as int, css@.len() as int) =~= Seq::<char>::empty());
    out
}

/// What the purge does to a text chunk of a `<style>` block: the purged
/// stylesheet when it differs.
pub open spec fn spec_text(u: UsageView, text: Seq<char>) -> Option<Seq<char>> {
    if spec_purge(text, u) != text { Some(spec_purge(text, u)) } else { None }
}

/// Purges one text chunk of a `<style>` block.
pub fn on_text(u: &Usage, t: &mut TextChunk)
    ensures
        chunk_text(*final(t)) == chunk_text(*old(t)),
        spec_text(u@, chunk_text(*old(t))) matches Some(x) ==> chunk_replacement(*final(t)) == Some(x),
        spec_text(u@, chunk_text(*old(t))) is None ==> chunk_replacement(*final(t)) == chunk_replacement(*old(t)),
{
    let css = chunk_string(t);
    let cv = chars_of(css.as_str());
    let purged = purge_css_rules(&cv, u);
    if !same(&purged, &cv) {
        let ps = string_of(purged.as_slice());
        replace_chunk(t, ps.as_str());
    }
}

/// The usage of a document's tag names, classes and ids, from a collecting pass.
pub fn collect_usage(html: &str) -> (r: Result<Usage, Error>)
    ensures
        r is Ok <==> rewrite_outcome(html@, "style"@, true, RuleView::Collect) is Ok,
        r matches Ok(u) ==> u@ == spec_usage(rewrite_outcome(html@, "style"@, true, RuleView::Collect)->Ok_0.1.elements),
        r matches Ok(u) ==> usage_wf(u@),
        r matches Err(e) ==> (e matches Error::HtmlRewrite(m) && rewrite_outcome(html@, "style"@, true, RuleView::Collect) matches Err(o) && o == m@),
{
    proof { reveal_strlit("style"); }
    let mut log = RewriteLog::new();
    match rewrite(html, "style", true, &HtmlRule::Collect, &mut log) {
        Ok(_) => Ok(usage_from_log(&log)),
        Err(m) => Err(Error::HtmlRewrite(m)),
    }
}

/// The document's usage as the collecting pass records it, if the pass succeeds.
pub open spec fn spec_collected_usage(html: Seq<char>) -> Option<UsageView> {
    match rewrite_outcome(html, "style"@, true, RuleView::Collect) {
        Ok((_, log)) => Some(spec_usage(log.elements)),
        Err(_) => None,
    }
}

/// Removes unused rules from the `<style>` blocks of `html`.
pub fn process(html: &str) -> (r: Result<String, Error>)
    ensures
        r is Ok <==> (spec_collected_usage(html@) matches Some(u)
            && rewrite_outcome(html@, "style"@, true, RuleView::PurgeCss(u)) is Ok),
        r matches Ok(s) ==> (spec_collected_usage(html@) matches Some(u)
            && rewrite_outcome(html@, "style"@, true, RuleView::PurgeCss(u))->Ok_0.0 == s@),
        r matches Err(e) ==> (e matches Error::HtmlRewrite(m) && match spec_collected_usage(html@) {
            None => rewrite_outcome(html@, "style"@, true, RuleView::Collect) matches Err(o) && o == m@,
            Some(u) => rewrite_outcome(html@, "style"@, true, RuleView::PurgeCss(u)) matches Err(o) && o == m@,
        }),
{
    proof { reveal_strlit("style"); }
    let usage = collect_usage(html)?;
    let mut log = RewriteLog::new();
    let rule = HtmlRule::PurgeCss(usage);
    match rewrite(html, "style", true, &rule, &mut log) {
        Ok(s) => Ok(s),
        Err(m) => Err(Error::HtmlRewrite(m)),
    }
}

} // verus!
