//! Replacement of CSS custom properties by their values.
//!
//! The `--name: value` declarations of `:root` (and `*`) rules in `<style>` blocks are
//! collected in document order; then every `var(--name)` and
//! `var(--name, fallback)` in inline `style` attributes and `<style>` blocks
//! is replaced by the value last declared for the name, by the fallback when
//! the name is not declared, or left as it was when there is neither.
use vstd::prelude::*;
use crate::error::Error;
use crate::html::{attr_get, attr_set, element_attrs, element_tag, get_attribute, set_attribute, HtmlElement};
use crate::html::{chunk_replacement, chunk_string, chunk_text, replace_chunk};
use crate::rewrite::{rewrite, rewrite_outcome, HtmlRule, RewriteLog, RuleView};
use lol_html::errors::AttributeNameError;
use lol_html::html_content::TextChunk;
use crate::text::{
    chars_of, is_whitespace, is_ws, find, find_char, find_from, find_in, lemma_find_from_facts, lemma_find_suffix, lemma_trim_start_sub, lit,
    matches_at, matches_here, push_all, push_range, push_str, same, skip_ws, slice, split_char, split_on, starts_with,
    string_of, trim, trim_end, trim_start, trimmed, ws_run_end, close_index, lemma_close_index, matching_close,
};

verus! {

broadcast use vstd::string::group_string_axioms;

// ───────────────────────────── variable table ─────────────────────────────

/// The declarations as (name, value) pairs, in the order they were found.
pub open spec fn vars_view(vars: Seq<(String, String)>) -> Seq<(Seq<char>, Seq<char>)> {
    vars.map_values(|p: (String, String)| (p.0@, p.1@))
}

/// The value last declared for `name`.
pub open spec fn lookup(vars: Seq<(Seq<char>, Seq<char>)>, name: Seq<char>) -> Option<Seq<char>>
    decreases vars.len(),
{
    if vars.len() == 0 {
        None
    } else if vars.last().0 == name {
        Some(vars.last().1)
    } else {
        lookup(vars.drop_last(), name)
    }
}

/// A later declaration of a name overrides the earlier ones, and leaves the
/// other names as they were.
pub proof fn lemma_last_declaration_wins(vars: Seq<(Seq<char>, Seq<char>)>, name: Seq<char>, value: Seq<char>, other: Seq<char>)
    ensures
        lookup(vars.push((name, value)), name) == Some(value),
        other != name ==> lookup(vars.push((name, value)), other) == lookup(vars, other),
{
    assert(vars.push((name, value)).drop_last() =~= vars);
}

fn lookup_exec(vars: &Vec<(String, String)>, name: &Vec<char>) -> (r: Option<Vec<char>>)
    ensures
        r matches Some(v) ==> lookup(vars_view(vars@), name@) == Some(v@),
        r is None ==> lookup(vars_view(vars@), name@) is None,
{
    let ghost vv = vars_view(vars@);
    let mut k = vars.len();
    assert(vv.take(k as int) == vv);
    while k > 0
        invariant
            k <= vars.len(),
            vv == vars_view(vars@),
            lookup(vv, name@) == lookup(vv.take(k as int), name@),
        decreases k,
    {
        let ghost t = vv.take(k as int);
        assert(t.last() == (vars@[k - 1].0@, vars@[k - 1].1@));
        assert(t.drop_last() == vv.take(k - 1));
        let n = chars_of(vars[k - 1].0.as_str());
        if same(&n, name) {
            return Some(chars_of(vars[k - 1].1.as_str()));
        }
        k = k - 1;
    }
    None
}

// ───────────────────────────── var() references ─────────────────────────────

/// What one `var(...)` body stands for: the variable's value, else the
/// fallback after the first comma, else the reference itself.
pub open spec fn var_value(inner: Seq<char>, vars: Seq<(Seq<char>, Seq<char>)>) -> Seq<char> {
    let (name_part, fallback) = match find(inner, seq![',']) {
        Some(k) => (trim(inner.subrange(0, k)), Some(trim(inner.subrange(k + 1, inner.len() as int)))),
        None => (trim(inner), None::<Seq<char>>),
    };
    let name = if starts_with(name_part, "--"@) { name_part.subrange(2, name_part.len() as int) } else { name_part };
    match lookup(vars, name) {
        Some(v) => v,
        None => match fallback {
            Some(fb) => fb,
            None => "var("@ + inner + seq![')'],
        },
    }
}

/// The parts of a `var(--name, fallback)` body: the first comma splits
/// the name from the fallback when the name has no comma and no trailing
/// white space.
proof fn lemma_var_body_parts(name: Seq<char>, fb: Seq<char>)
    requires
        name.len() > 0,
        !is_ws(name.last()),
        forall|i: int| 0 <= i < name.len() ==> name[i] != ',',
    ensures
        ({
            let inner = "--"@ + name + seq![','] + fb;
            &&& find(inner, seq![',']) == Some(name.len() as int + 2)
            &&& trim(inner.subrange(0, name.len() as int + 2)) == "--"@ + name
            &&& inner.subrange(name.len() as int + 3, inner.len() as int) == fb
        }),
{
    reveal_strlit("--");
    let inner = "--"@ + name + seq![','] + fb;
    let n = name.len() as int;
    lemma_first_comma(name, fb);
    lemma_dashes_trimmed(name);
    assert(inner.subrange(0, n + 2) =~= "--"@ + name);
    assert(inner.subrange(n + 3, inner.len() as int) =~= fb);
}

proof fn lemma_first_comma(name: Seq<char>, fb: Seq<char>)
    requires
        forall|i: int| 0 <= i < name.len() ==> name[i] != ',',
    ensures
        find("--"@ + name + seq![','] + fb, seq![',']) == Some(name.len() as int + 2),
{
    reveal_strlit("--");
    let inner = "--"@ + name + seq![','] + fb;
    let n = name.len() as int;
    assert forall|j: int| 0 <= j < n + 2 implies inner[j] != ',' by {
        if j >= 2 {
            assert(inner[j] == name[j - 2]);
        }
    }
    assert(inner[n + 2] == ',');
    assert(inner.subrange(n + 2, n + 3) =~= seq![',']);
    lemma_find_from_facts(inner, seq![','], 0);
    let r = find_from(inner, seq![','], 0);
    assert(matches_at(inner, n + 2, seq![',']));
    if let Some(k) = r {
        if k < n + 2 {
            assert(inner.subrange(k, k + 1)[0] == inner[k]);
            assert(false);
        }
        assert(k == n + 2);
    }
}

proof fn lemma_dashes_trimmed(name: Seq<char>)
    requires
        name.len() > 0,
        !is_ws(name.last()),
    ensures
        trim("--"@ + name) == "--"@ + name,
{
    reveal_strlit("--");
    let np = "--"@ + name;
    assert(np[0] == '-');
    assert(!is_ws(np[0]));
    assert(trim_start(np) == np);
    assert(np.last() == name.last());
    assert(trim_end(np) == np);
}

/// A declared variable wins over its fallback: `var(--name, fallback)` is the
/// value last declared for `name`, whatever the fallback.
pub proof fn lemma_declared_var_wins(vars: Seq<(Seq<char>, Seq<char>)>, name: Seq<char>, value: Seq<char>, fb: Seq<char>)
    requires
        name.len() > 0,
        !is_ws(name.last()),
        forall|i: int| 0 <= i < name.len() ==> name[i] != ',',
    ensures
        var_value("--"@ + name + seq![','] + fb, vars.push((name, value))) == value,
{
    reveal_strlit("--");
    lemma_var_body_parts(name, fb);
    lemma_last_declaration_wins(vars, name, value, name);
    let np = "--"@ + name;
    assert(starts_with(np, "--"@)) by {
        assert(np.subrange(0, 2) =~= "--"@);
    }
    assert(np.subrange(2, np.len() as int) =~= name);
}

/// A name declared nowhere takes the fallback, trimmed.
pub proof fn lemma_undeclared_var_takes_fallback(vars: Seq<(Seq<char>, Seq<char>)>, name: Seq<char>, fb: Seq<char>)
    requires
        name.len() > 0,
        !is_ws(name.last()),
        forall|i: int| 0 <= i < name.len() ==> name[i] != ',',
        forall|i: int| 0 <= i < vars.len() ==> vars[i].0 != name,
    ensures
        var_value("--"@ + name + seq![','] + fb, vars) == trim(fb),
{
    reveal_strlit("--");
    lemma_var_body_parts(name, fb);
    lemma_lookup_absent(vars, name);
    let np = "--"@ + name;
    assert(starts_with(np, "--"@)) by {
        assert(np.subrange(0, 2) =~= "--"@);
    }
    assert(np.subrange(2, np.len() as int) =~= name);
}

/// A name declared nowhere and given no fallback leaves the reference as it
/// was: `var(--name)` stays `var(--name)`.
pub proof fn lemma_undeclared_var_kept(vars: Seq<(Seq<char>, Seq<char>)>, name: Seq<char>)
    requires
        name.len() > 0,
        !is_ws(name.last()),
        forall|i: int| 0 <= i < name.len() ==> name[i] != ',',
        forall|i: int| 0 <= i < vars.len() ==> vars[i].0 != name,
    ensures
        var_value("--"@ + name, vars) == "var("@ + "--"@ + name + seq![')'],
{
    reveal_strlit("--");
    let inner = "--"@ + name;
    lemma_find_from_facts(inner, seq![','], 0);
    if let Some(k) = find(inner, seq![',']) {
        assert(inner.subrange(k, k + 1)[0] == inner[k]);
        if k >= 2 {
            assert(inner[k] == name[k - 2]);
        }
        assert(false);
    }
    lemma_dashes_trimmed(name);
    lemma_lookup_absent(vars, name);
    assert(starts_with(inner, "--"@)) by {
        assert(inner.subrange(0, 2) =~= "--"@);
    }
    assert(inner.subrange(2, inner.len() as int) =~= name);
    assert("var("@ + inner + seq![')'] =~= "var("@ + "--"@ + name + seq![')']);
}

proof fn lemma_lookup_absent(vars: Seq<(Seq<char>, Seq<char>)>, name: Seq<char>)
    requires
        forall|i: int| 0 <= i < vars.len() ==> vars[i].0 != name,
    ensures
        lookup(vars, name) is None,
    decreases vars.len(),
{
    if vars.len() > 0 {
        assert(vars.last() == vars[vars.len() - 1]);
        lemma_lookup_absent(vars.drop_last(), name);
    }
}

/// Every `var(...)` of `r` replaced (see `var_value`); the body ends at the
/// first `)`. A `var(` that is never closed is kept and the scan goes on after it.
pub open spec fn var_scan(r: Seq<char>, vars: Seq<(Seq<char>, Seq<char>)>) -> Seq<char>
    decreases r.len(),
{
    match find(r, "var("@) {
        None => r,
        Some(idx) => {
            proof { lemma_find_from_facts(r, "var("@, 0); }
            if 0 <= idx && idx + 4 <= r.len() {
                let after = r.subrange(idx + 4, r.len() as int);
                proof { lemma_find_from_facts(after, seq![')'], 0); }
                r.subrange(0, idx) + match find(after, seq![')']) {
                    None => "var("@ + var_scan(after, vars),
                    Some(c) => if 0 <= c < after.len() {
                        var_value(after.subrange(0, c), vars) + var_scan(after.subrange(c + 1, after.len() as int), vars)
                    } else {
                        r
                    },
                }
            } else {
                r
            }
        },
    }
}

/// A text with no `var(` in it comes back unchanged.
pub proof fn lemma_without_var_unchanged(r: Seq<char>, vars: Seq<(Seq<char>, Seq<char>)>)
    requires
        find(r, "var("@) is None,
    ensures
        var_scan(r, vars) == r,
{
}

fn var_value_exec(inner: &Vec<char>, vars: &Vec<(String, String)>) -> (r: Vec<char>)
    ensures r@ == var_value(inner@, vars_view(vars@)),
{
    proof {
        reveal_strlit("--");
        lemma_find_from_facts(inner@, seq![','], 0);
    }
    let (name_part, fallback) = match find_char(inner, ',', 0) {
        Some(k) => {
            assert(find_from(inner@, seq![','], 0) == Some(k as int));
            assert(matches_at(inner@, k as int, seq![',']));
            assert(seq![','].len() == 1);
            assert(k < inner.len());
            let n = slice(inner, 0, k);
            let f = slice(inner, k + 1, inner.len());
            (trimmed(&n), Some(trimmed(&f)))
        },
        None => (trimmed(inner), None),
    };
    let name = if name_part.len() >= 2 && name_part[0] == '-' && name_part[1] == '-' {
        assert(starts_with(name_part@, "--"@)) by {
            assert(name_part@.subrange(0, 2) =~= "--"@);
        }
        slice(&name_part, 2, name_part.len())
    } else {
        proof {
            if starts_with(name_part@, "--"@) {
                assert(name_part@.subrange(0, 2) == "--"@);
                assert(name_part@[0] == name_part@.subrange(0, 2)[0]);
                assert(name_part@[1] == name_part@.subrange(0, 2)[1]);
            }
        }
        name_part
    };
    match lookup_exec(vars, &name) {
        Some(v) => v,
        None => match fallback {
            Some(fb) => fb,
            None => {
                let mut out = lit("var(");
                push_all(&mut out, inner);
                out.push(')');
                out
            },
        },
    }
}

proof fn lemma_var_scan_step(r: Seq<char>, idx: int, vars: Seq<(Seq<char>, Seq<char>)>)
    requires find(r, "var("@) == Some(idx),
    ensures
        0 <= idx && idx + 4 <= r.len(),
        ({
            let after = r.subrange(idx + 4, r.len() as int);
            var_scan(r, vars) == r.subrange(0, idx) + match find(after, seq![')']) {
                None => "var("@ + var_scan(after, vars),
                Some(c) => var_value(after.subrange(0, c), vars) + var_scan(after.subrange(c + 1, after.len() as int), vars),
            }
        }),
        ({
            let after = r.subrange(idx + 4, r.len() as int);
            find(after, seq![')']) matches Some(c) ==> 0 <= c < after.len()
        }),
{
    reveal_strlit("var(");
    lemma_find_from_facts(r, "var("@, 0);
    let after = r.subrange(idx + 4, r.len() as int);
    lemma_find_from_facts(after, seq![')'], 0);
}

/// `var_scan` on characters.
#[verifier::rlimit(40)]
pub fn resolve_vars_chars(v: &Vec<char>, vars: &Vec<(String, String)>) -> (r: Vec<char>)
    ensures r@ == var_scan(v@, vars_view(vars@)),
{
    proof { reveal_strlit("var("); }
    let ghost vv = vars_view(vars@);
    let pat = lit("var(");
    let mut out: Vec<char> = Vec::new();
    let mut i: usize = 0;
    assert(v@.subrange(0, v@.len() as int) == v@);
    while i <= v.len()
        invariant
            i <= v.len(),
            pat@ == "var("@,
            vv == vars_view(vars@),
            out@ + var_scan(v@.subrange(i as int, v@.len() as int), vv) == var_scan(v@, vv),
        decreases v.len() - i,
    {
        let ghost r = v@.subrange(i as int, v@.len() as int);
        proof {
            lemma_find_suffix(v@, pat@, i as int);
            lemma_find_from_facts(v@, pat@, i as int);
        }
        match find_in(v, &pat, i) {
            None => {
                push_range(&mut out, v, i, v.len());
                assert(var_scan(r, vv) == r);
                return out;
            },
            Some(idx) => {
                proof { lemma_var_scan_step(r, idx - i, vv); }
                let open_end = idx + 4;
                let ghost after = r.subrange(idx + 4 - i, r.len() as int);
                let ghost out0 = out@;
                assert(after == v@.subrange(open_end as int, v@.len() as int));
                assert(r.subrange(0, idx - i) == v@.subrange(i as int, idx as int));
                proof {
                    lemma_find_suffix(v@, seq![')'], open_end as int);
                    lemma_find_from_facts(v@, seq![')'], open_end as int);
                }
                push_range(&mut out, v, i, idx);
                match find_char(v, ')', open_end) {
                    None => {
                        push_str(&mut out, "var(");
                        assert(out@ + var_scan(after, vv) =~= out0 + var_scan(r, vv));
                        i = open_end;
                    },
                    Some(close) => {
                        let inner = slice(v, open_end, close);
                        assert(after.subrange(0, close - open_end) == inner@);
                        let ghost rest = v@.subrange(close + 1, v@.len() as int);
                        assert(after.subrange(close - open_end + 1, after.len() as int) == rest);
                        let val = var_value_exec(&inner, vars);
                        push_all(&mut out, &val);
                        assert(out@ + var_scan(rest, vv) =~= out0 + var_scan(r, vv));
                        i = close + 1;
                    },
                }
            },
        }
    }
    out
}

/// Replaces the `var()` references of a CSS text (see `var_scan`).
pub fn resolve_vars(input: &str, vars: &Vec<(String, String)>) -> (r: String)
    ensures r@ == var_scan(input@, vars_view(vars@)),
{
    let v = chars_of(input);
    let out = resolve_vars_chars(&v, vars);
    string_of(out.as_slice())
}

// ───────────────────────────── :root declarations ─────────────────────────────

/// One declaration of a rule body: `--name: value` gives `(name, value)`,
/// trimmed; anything else gives nothing.
pub open spec fn decl_var(d: Seq<char>) -> Option<(Seq<char>, Seq<char>)> {
    let t = trim(d);
    match find(t, seq![':']) {
        Some(c) => {
            let prop = trim(t.subrange(0, c));
            if starts_with(prop, "--"@) {
                Some((prop.subrange(2, prop.len() as int), trim(t.subrange(c + 1, t.len() as int))))
            } else {
                None
            }
        },
        None => None,
    }
}

pub open spec fn decl_vars(pieces: Seq<Seq<char>>) -> Seq<(Seq<char>, Seq<char>)>
    decreases pieces.len(),
{
    if pieces.len() == 0 {
        seq![]
    } else {
        decl_vars(pieces.drop_last()) + match decl_var(pieces.last()) {
            Some(x) => seq![x],
            None => seq![],
        }
    }
}

/// The custom properties declared in a rule body, in order.
pub open spec fn parse_decls(block: Seq<char>) -> Seq<(Seq<char>, Seq<char>)> {
    decl_vars(split_char(block, ';'))
}

fn pair_strings(a: &Vec<char>, b: &Vec<char>) -> (r: (String, String))
    ensures r.0@ == a@, r.1@ == b@,
{
    (string_of(a.as_slice()), string_of(b.as_slice()))
}

/// The custom properties declared in a rule body (see `parse_decls`).
pub fn parse_var_declarations(block: &Vec<char>) -> (r: Vec<(String, String)>)
    ensures vars_view(r@) == parse_decls(block@),
{
    proof { reveal_strlit("--"); }
    let pieces = split_on(block, ';');
    let ghost ps = split_char(block@, ';');
    let ghost pv = pieces@.map_values(|x: Vec<char>| x@);
    assert(pv =~= ps);
    let mut out: Vec<(String, String)> = Vec::new();
    for k in 0..pieces.len()
        invariant
            ps == split_char(block@, ';'),
            pv == ps,
            pv == pieces@.map_values(|x: Vec<char>| x@),
            vars_view(out@) == decl_vars(ps.take(k as int)),
    {
        proof {
            assert(ps.take(k + 1).drop_last() == ps.take(k as int));
            assert(ps.take(k + 1).last() == pieces@[k as int]@);
        }
        let ghost out0 = vars_view(out@);
        proof { reveal_strlit("--"); }
        let t = trimmed(&pieces[k]);
        proof { lemma_find_from_facts(t@, seq![':'], 0); }
        match find_char(&t, ':', 0) {
            Some(c) => {
                assert(matches_at(t@, c as int, seq![':']));
                assert(seq![':'].len() == 1);
                assert(c < t.len());
                let p0 = slice(&t, 0, c);
                let prop = trimmed(&p0);
                if prop.len() >= 2 && prop[0] == '-' && prop[1] == '-' {
                    assert(prop@.subrange(0, 2) =~= "--"@);
                    let name = slice(&prop, 2, prop.len());
                    let v0 = slice(&t, c + 1, t.len());
                    let value = trimmed(&v0);
                    out.push(pair_strings(&name, &value));
                    assert(vars_view(out@) =~= out0 + seq![(name@, value@)]);
                } else {
                    proof {
                        if starts_with(prop@, "--"@) {
                            assert(prop@[0] == prop@.subrange(0, 2)[0]);
                            assert(prop@[1] == prop@.subrange(0, 2)[1]);
                        }
                    }
                    assert(vars_view(out@) =~= out0 + seq![]);
                }
            },
            None => {
                assert(vars_view(out@) =~= out0 + seq![]);
            },
        }
    }
    assert(ps.take(pieces.len() as int) == ps);
    out
}

/// The position of the `}` that closes a `{` already passed, in `v[from..]`,
/// relative to `from`.
pub fn find_matching_brace(v: &Vec<char>, from: usize) -> (r: Option<usize>)
    requires from <= v.len(),
    ensures
        r matches Some(k) ==> from + k < v.len() && close_index(v@.subrange(from as int, v@.len() as int), 0, 1, '{', '}') == Some(k as int),
        r is None ==> close_index(v@.subrange(from as int, v@.len() as int), 0, 1, '{', '}') is None,
{
    matching_close(v, from, '{', '}')
}

/// `s` with every leading copy of `p` removed (`str::trim_start_matches`).
pub open spec fn strip_repeated(s: Seq<char>, p: Seq<char>) -> Seq<char>
    decreases s.len(),
{
    if p.len() > 0 && starts_with(s, p) {
        strip_repeated(s.subrange(p.len() as int, s.len() as int), p)
    } else {
        s
    }
}

/// Where the copies of `p` that start at `j` end.
pub open spec fn strip_end(s: Seq<char>, j: int, p: Seq<char>) -> int
    decreases s.len() - j,
{
    if p.len() > 0 && matches_at(s, j, p) { strip_end(s, j + p.len(), p) } else { j }
}

proof fn lemma_strip_end(s: Seq<char>, j: int, p: Seq<char>)
    requires 0 <= j <= s.len(),
    ensures
        j <= strip_end(s, j, p) <= s.len(),
        strip_repeated(s.subrange(j, s.len() as int), p) == s.subrange(strip_end(s, j, p), s.len() as int),
    decreases s.len() - j,
{
    let t = s.subrange(j, s.len() as int);
    if p.len() > 0 && matches_at(s, j, p) {
        assert(t.subrange(0, p.len() as int) == s.subrange(j, j + p.len()));
        assert(t.subrange(p.len() as int, t.len() as int) == s.subrange(j + p.len(), s.len() as int));
        lemma_strip_end(s, j + p.len(), p);
    } else {
        if p.len() > 0 && starts_with(t, p) {
            assert(t.subrange(0, p.len() as int) == s.subrange(j, j + p.len()));
        }
    }
}

fn strip_end_exec(v: &Vec<char>, j: usize, p: &Vec<char>) -> (r: usize)
    requires j <= v.len(),
    ensures r == strip_end(v@, j as int, p@),
{
    let mut k = j;
    while p.len() > 0 && matches_here(v, k, p)
        invariant
            j <= k <= v.len(),
            strip_end(v@, j as int, p@) == strip_end(v@, k as int, p@),
        decreases v.len() - k,
    {
        k = k + p.len();
    }
    k
}

/// A `:root` rule that starts right after a colon (`after` begins with
/// `root` or ` root`): the declarations of its block, and what follows the
/// block; none when the block is missing or never closed.
pub open spec fn root_block(after: Seq<char>) -> Option<(Seq<(Seq<char>, Seq<char>)>, Seq<char>)> {
    if starts_with(after, "root"@) || starts_with(after, " root"@) {
        let ar = trim_start(strip_repeated(after, "root"@));
        match find(ar, seq!['{']) {
            Some(bp) => {
                let bs = ar.subrange(bp + 1, ar.len() as int);
                match close_index(bs, 0, 1, '{', '}') {
                    Some(e) => Some((parse_decls(bs.subrange(0, e)), bs.subrange(e + 1, bs.len() as int))),
                    None => None,
                }
            },
            None => None,
        }
    } else {
        None
    }
}

pub proof fn lemma_root_block(after: Seq<char>)
    ensures root_block(after) matches Some((d, rest)) ==> rest.len() < after.len(),
{
    lemma_strip_end(after, 0, "root"@);
    assert(after.subrange(0, after.len() as int) == after);
    let e1 = strip_end(after, 0, "root"@);
    lemma_trim_start_sub(after, e1);
    let ar = trim_start(strip_repeated(after, "root"@));
    lemma_find_from_facts(ar, seq!['{'], 0);
    if let Some(bp) = find(ar, seq!['{']) {
        let bs = ar.subrange(bp + 1, ar.len() as int);
        lemma_close_index(bs, 0, 1, '{', '}');
    }
}

/// A `*` at `j` of `r` that starts a rule: it comes first, or after white
/// space that follows the start, a `}`, a `{` or a `;`.
pub open spec fn star_start(r: Seq<char>, j: int) -> bool
    decreases j,
{
    if j <= 0 || j > r.len() {
        true
    } else if is_ws(r[j - 1]) {
        star_start(r, j - 1)
    } else {
        r[j - 1] == '}' || r[j - 1] == '{' || r[j - 1] == ';'
    }
}

/// Where a rule of custom properties may begin: a colon (of `:root`), or a
/// `*` that starts a rule.
pub open spec fn mark_at(r: Seq<char>, i: int) -> bool {
    r[i] == ':' || (r[i] == '*' && star_start(r, i))
}

/// The first mark at or after `i`.
pub open spec fn next_mark(r: Seq<char>, i: int) -> Option<int>
    decreases r.len() - i,
{
    if i < 0 || i >= r.len() {
        None
    } else if mark_at(r, i) {
        Some(i)
    } else {
        next_mark(r, i + 1)
    }
}

pub proof fn lemma_next_mark(r: Seq<char>, i: int)
    requires 0 <= i,
    ensures next_mark(r, i) matches Some(k) ==> i <= k < r.len() && mark_at(r, k),
    decreases r.len() - i,
{
    if i < r.len() && !mark_at(r, i) {
        lemma_next_mark(r, i + 1);
    }
}

/// A `*` rule that starts right after the `*`: when its selector is `*`
/// alone (white space, then `{`), the declarations of its block and what
/// follows the block; none otherwise or when the block is never closed.
pub open spec fn star_block(after: Seq<char>) -> Option<(Seq<(Seq<char>, Seq<char>)>, Seq<char>)> {
    let ar = trim_start(after);
    if ar.len() > 0 && ar[0] == '{' {
        let bs = ar.subrange(1, ar.len() as int);
        match close_index(bs, 0, 1, '{', '}') {
            Some(e) => Some((parse_decls(bs.subrange(0, e)), bs.subrange(e + 1, bs.len() as int))),
            None => None,
        }
    } else {
        None
    }
}

pub proof fn lemma_star_block(after: Seq<char>)
    ensures star_block(after) matches Some((d, rest)) ==> rest.len() < after.len(),
{
    assert(after.subrange(0, after.len() as int) == after);
    lemma_trim_start_sub(after, 0);
    let ar = trim_start(after);
    if ar.len() > 0 {
        let bs = ar.subrange(1, ar.len() as int);
        lemma_close_index(bs, 0, 1, '{', '}');
    }
}

/// The custom properties declared by the `:root` and `*` rules of a
/// stylesheet, in order. Every mark is a candidate; after a rule the scan
/// resumes behind its block, after any other mark right behind it.
pub open spec fn root_scan(r: Seq<char>) -> Seq<(Seq<char>, Seq<char>)>
    decreases r.len(),
{
    match next_mark(r, 0) {
        None => seq![],
        Some(idx) => {
            proof { lemma_next_mark(r, 0); }
            if 0 <= idx < r.len() {
                let after = r.subrange(idx + 1, r.len() as int);
                proof { lemma_root_block(after); lemma_star_block(after); }
                let block = if r[idx] == ':' { root_block(after) } else { star_block(after) };
                match block {
                    Some((decls, rest)) => decls + root_scan(rest),
                    None => root_scan(after),
                }
            } else {
                seq![]
            }
        },
    }
}

proof fn lemma_root_scan_step(r: Seq<char>, idx: int)
    requires next_mark(r, 0) == Some(idx),
    ensures
        0 <= idx < r.len(),
        mark_at(r, idx),
        root_scan(r) == match (if r[idx] == ':' {
            root_block(r.subrange(idx + 1, r.len() as int))
        } else {
            star_block(r.subrange(idx + 1, r.len() as int))
        }) {
            Some((decls, rest)) => decls + root_scan(rest),
            None => root_scan(r.subrange(idx + 1, r.len() as int)),
        },
{
    lemma_next_mark(r, 0);
}

/// Whether the `*` at `k` of `v` starts a rule within `v[i..]` (see `star_start`).
fn star_start_exec(v: &Vec<char>, i: usize, k: usize) -> (b: bool)
    requires i <= k < v.len(),
    ensures b == star_start(v@.subrange(i as int, v@.len() as int), k - i),
{
    let ghost r = v@.subrange(i as int, v@.len() as int);
    let mut j = k;
    while j > i && is_whitespace(v[j - 1])
        invariant
            i <= j <= k < v.len(),
            r == v@.subrange(i as int, v@.len() as int),
            star_start(r, k - i) == star_start(r, j - i),
        decreases j,
    {
        assert(r[j - i - 1] == v@[j - 1]);
        j = j - 1;
    }
    if j == i {
        return true;
    }
    assert(r[j - i - 1] == v@[j - 1]);
    v[j - 1] == '}' || v[j - 1] == '{' || v[j - 1] == ';'
}

/// The first mark of `v[i..]`, as a position of `v` (see `next_mark`).
fn next_mark_exec(v: &Vec<char>, i: usize) -> (r: Option<usize>)
    requires i <= v.len(),
    ensures
        r matches Some(k) ==> next_mark(v@.subrange(i as int, v@.len() as int), 0) == Some(k - i) && i <= k < v.len(),
        r is None ==> next_mark(v@.subrange(i as int, v@.len() as int), 0) is None,
{
    let ghost r = v@.subrange(i as int, v@.len() as int);
    let mut k = i;
    while k < v.len()
        invariant
            i <= k <= v.len(),
            r == v@.subrange(i as int, v@.len() as int),
            next_mark(r, 0) == next_mark(r, k - i),
        decreases v.len() - k,
    {
        assert(r[k - i] == v@[k as int]);
        if v[k] == ':' || (v[k] == '*' && star_start_exec(v, i, k)) {
            return Some(k);
        }
        k = k + 1;
    }
    None
}

fn append_vars(out: &mut Vec<(String, String)>, more: Vec<(String, String)>)
    ensures vars_view(final(out)@) == vars_view(old(out)@) + vars_view(more@),
{
    let ghost o = vars_view(out@);
    let mut more = more;
    let mut tmp: Vec<(String, String)> = Vec::new();
    let ghost mv = vars_view(more@);
    for k in 0..more.len()
        invariant
            mv == vars_view(more@),
            vars_view(out@) == o + mv.take(k as int),
    {
        let p = &more[k];
        let ghost before = vars_view(out@);
        out.push((p.0.clone(), p.1.clone()));
        assert(mv.take(k + 1) == mv.take(k as int).push(mv[k as int]));
        assert(vars_view(out@) =~= before.push(mv[k as int]));
    }
    assert(mv.take(more.len() as int) == mv);
}

/// The custom properties declared by the `:root` and `*` rules of a stylesheet
/// (see `root_scan`).
#[verifier::rlimit(40)]
pub fn extract_root_vars_chars(v: &Vec<char>) -> (r: Vec<(String, String)>)
    ensures vars_view(r@) == root_scan(v@),
{
    proof {
        reveal_strlit("root");
        reveal_strlit(" root");
    }
    let root = lit("root");
    let mut out: Vec<(String, String)> = Vec::new();
    let mut i: usize = 0;
    assert(v@.subrange(0, v@.len() as int) == v@);
    assert(vars_view(out@) + root_scan(v@) =~= root_scan(v@));
    while i <= v.len()
        invariant
            i <= v.len(),
            root@ == "root"@,
            vars_view(out@) + root_scan(v@.subrange(i as int, v@.len() as int)) == root_scan(v@),
        decreases v.len() - i,
    {
        let ghost r = v@.subrange(i as int, v@.len() as int);
        let ghost out0 = vars_view(out@);
        proof {
            reveal_strlit("root");
            reveal_strlit(" root");
        }
        match next_mark_exec(v, i) {
            None => {
                assert(root_scan(r) == Seq::<(Seq<char>, Seq<char>)>::empty());
                assert(vars_view(out@) =~= vars_view(out@) + root_scan(r));
                return out;
            },
            Some(idx) => {
                proof { lemma_root_scan_step(r, idx - i); }
                let a = idx + 1;
                let ghost after = v@.subrange(a as int, v@.len() as int);
                assert(r.subrange(idx - i + 1, r.len() as int) == after);
                let colon = v[idx] == ':';
                assert(r[idx - i] == v@[idx as int]);
                let s1 = crate::text::starts_with_at(v, a, "root");
                let s2 = crate::text::starts_with_at(v, a, " root");
                proof {
                    if a + 4 <= v.len() {
                        assert(after.subrange(0, 4) == v@.subrange(a as int, a + 4));
                    }
                    if a + 5 <= v.len() {
                        assert(after.subrange(0, 5) == v@.subrange(a as int, a + 5));
                    }
                    assert(starts_with(after, "root"@) == s1);
                    assert(starts_with(after, " root"@) == s2);
                }
                let mut found = false;
                if colon && (s1 || s2) {
                    let e1 = strip_end_exec(v, a, &root);
                    proof {
                        lemma_strip_end(v@, a as int, "root"@);
                    }
                    let k = skip_ws(v, e1, v.len());
                    let ghost ar = v@.subrange(k as int, v@.len() as int);
                    assert(trim_start(strip_repeated(after, "root"@)) == ar);
                    proof {
                        lemma_find_suffix(v@, seq!['{'], k as int);
                        lemma_find_from_facts(v@, seq!['{'], k as int);
                    }
                    if let Some(bp) = find_char(v, '{', k) {
                        assert(matches_at(v@, bp as int, seq!['{']));
                        assert(seq!['{'].len() == 1);
                        let ghost bs = ar.subrange(bp - k + 1, ar.len() as int);
                        assert(bs == v@.subrange(bp + 1, v@.len() as int));
                        if let Some(e) = find_matching_brace(v, bp + 1) {
                            let block = slice(v, bp + 1, bp + 1 + e);
                            assert(bs.subrange(0, e as int) == block@);
                            let ghost rest = v@.subrange(bp + 1 + e + 1, v@.len() as int);
                            assert(bs.subrange(e + 1, bs.len() as int) == rest);
                            let decls = parse_var_declarations(&block);
                            append_vars(&mut out, decls);
                            assert(vars_view(out@) + root_scan(rest) =~= out0 + root_scan(r));
                            i = bp + 1 + e + 1;
                            found = true;
                        }
                    }
                }
                if !colon {
                    let k = skip_ws(v, a, v.len());
                    proof { assert(v@.subrange(a as int, v@.len() as int) == after); }
                    if k < v.len() && v[k] == '{' {
                        let ghost bs = v@.subrange(k + 1, v@.len() as int);
                        assert(trim_start(after).subrange(1, trim_start(after).len() as int) == bs);
                        if let Some(e) = find_matching_brace(v, k + 1) {
                            let block = slice(v, k + 1, k + 1 + e);
                            assert(bs.subrange(0, e as int) == block@);
                            let ghost rest = v@.subrange(k + 1 + e + 1, v@.len() as int);
                            assert(bs.subrange(e + 1, bs.len() as int) == rest);
                            let decls = parse_var_declarations(&block);
                            append_vars(&mut out, decls);
                            assert(vars_view(out@) + root_scan(rest) =~= out0 + root_scan(r));
                            i = k + 1 + e + 1;
                            found = true;
                        }
                    }
                }
                if !found {
                    assert(colon ==> root_block(after) is None);
                    assert(!colon ==> star_block(after) is None);
                    assert(vars_view(out@) + root_scan(after) == out0 + root_scan(r));
                    i = a;
                }
            },
        }
    }
    out
}

/// The custom properties declared by the `:root` and `*` rules of a stylesheet.
pub fn extract_root_vars(css: &str) -> (r: Vec<(String, String)>)
    ensures vars_view(r@) == root_scan(css@),
{
    let v = chars_of(css);
    extract_root_vars_chars(&v)
}

// ───────────────────────────── the pass ─────────────────────────────

/// The custom properties declared by the `:root` and `*` rules of a document's
/// `<style>` text chunks, in document order.
pub open spec fn texts_vars(texts: Seq<Seq<char>>) -> Seq<(Seq<char>, Seq<char>)>
    decreases texts.len(),
{
    if texts.len() == 0 {
        seq![]
    } else {
        texts_vars(texts.drop_last()) + root_scan(texts.last())
    }
}

/// The declarations a collecting pass over `html` finds, if it succeeds.
pub open spec fn spec_collected_vars(html: Seq<char>) -> Option<Seq<(Seq<char>, Seq<char>)>> {
    match rewrite_outcome(html, "style"@, true, RuleView::Collect) {
        Ok((_, log)) => Some(texts_vars(log.texts)),
        Err(_) => None,
    }
}

/// What the pass does to an element's attributes: its `style`, if any and
/// changed by `var_scan`, is replaced.
pub open spec fn spec_element(vars: Seq<(Seq<char>, Seq<char>)>, attrs: Seq<(Seq<char>, Seq<char>)>) -> Seq<(Seq<char>, Seq<char>)> {
    match attr_get(attrs, "style"@) {
        Some(s) => if var_scan(s, vars) != s { attr_set(attrs, "style"@, var_scan(s, vars)) } else { attrs },
        None => attrs,
    }
}

/// What the pass does to a text chunk of a `<style>` block.
pub open spec fn spec_text(vars: Seq<(Seq<char>, Seq<char>)>, text: Seq<char>) -> Option<Seq<char>> {
    if var_scan(text, vars) != text { Some(var_scan(text, vars)) } else { None }
}

/// Replaces the `var()` references of one element's `style` attribute.
pub fn on_element(vars: &Vec<(String, String)>, el: &mut HtmlElement) -> (r: Result<(), AttributeNameError>)
    ensures
        r is Ok,
        crate::html::same_frame(*final(el), *old(el)),
        element_attrs(*final(el)) == spec_element(vars_view(vars@), element_attrs(*old(el))),
{
    proof { reveal_strlit("style"); }
    if let Some(style) = get_attribute(el, "style") {
        let sv = chars_of(style.as_str());
        let resolved = resolve_vars_chars(&sv, vars);
        if !same(&resolved, &sv) {
            let rs = string_of(resolved.as_slice());
            return set_attribute(el, "style", rs.as_str());
        }
    }
    Ok(())
}

/// Replaces the `var()` references of one text chunk of a `<style>` block.
pub fn on_text(vars: &Vec<(String, String)>, t: &mut TextChunk)
    ensures
        chunk_text(*final(t)) == chunk_text(*old(t)),
        spec_text(vars_view(vars@), chunk_text(*old(t))) matches Some(x) ==> chunk_replacement(*final(t)) == Some(x),
        spec_text(vars_view(vars@), chunk_text(*old(t))) is None ==> chunk_replacement(*final(t)) == chunk_replacement(*old(t)),
{
    let css = chunk_string(t);
    let cv = chars_of(css.as_str());
    let resolved = resolve_vars_chars(&cv, vars);
    if !same(&resolved, &cv) {
        let rs = string_of(resolved.as_slice());
        replace_chunk(t, rs.as_str());
    }
}

/// The declarations of the `:root` and `*` rules of the collected text chunks.
pub fn vars_from_texts(texts: &Vec<String>) -> (r: Vec<(String, String)>)
    ensures vars_view(r@) == texts_vars(texts@.map_values(|t: String| t@)),
{
    let ghost tv = texts@.map_values(|t: String| t@);
    let mut out: Vec<(String, String)> = Vec::new();
    for k in 0..texts.len()
        invariant
            tv == texts@.map_values(|t: String| t@),
            vars_view(out@) == texts_vars(tv.take(k as int)),
    {
        proof {
            assert(tv.take(k + 1).drop_last() == tv.take(k as int));
            assert(tv.take(k + 1).last() == texts@[k as int]@);
        }
        let found = extract_root_vars(texts[k].as_str());
        append_vars(&mut out, found);
    }
    assert(tv.take(texts.len() as int) == tv);
    out
}

/// Replaces `var()` references in inline styles and `<style>` blocks by the
/// values the document's `:root` and `*` rules declare. A document that declares
/// none comes back unchanged.
pub fn process(html: &str) -> (r: Result<String, Error>)
    ensures
        r is Ok <==> (spec_collected_vars(html@) matches Some(vars)
            && (vars.len() == 0 || rewrite_outcome(html@, "style"@, true, RuleView::ResolveProps(vars)) is Ok)),
        r matches Ok(s) ==> (spec_collected_vars(html@) matches Some(vars) && if vars.len() == 0 {
            s@ == html@
        } else {
            rewrite_outcome(html@, "style"@, true, RuleView::ResolveProps(vars))->Ok_0.0 == s@
        }),
        r matches Err(e) ==> (e matches Error::HtmlRewrite(m) && match spec_collected_vars(html@) {
            None => rewrite_outcome(html@, "style"@, true, RuleView::Collect) matches Err(o) && o == m@,
            Some(vars) => rewrite_outcome(html@, "style"@, true, RuleView::ResolveProps(vars)) matches Err(o) && o == m@,
        }),
{
    proof { reveal_strlit("style"); }
    let mut log = RewriteLog::new();
    if let Err(m) = rewrite(html, "style", true, &HtmlRule::Collect, &mut log) {
        return Err(Error::HtmlRewrite(m));
    }
    let vars = vars_from_texts(&log.texts);
    if vars.len() == 0 {
        return Ok(html.to_string());
    }
    let mut log2 = RewriteLog::new();
    let ghost vv = vars_view(vars@);
    let rule = HtmlRule::ResolveProps(vars);
    assert(rule@ == RuleView::ResolveProps(vv));
    match rewrite(html, "style", true, &rule, &mut log2) {
        Ok(s) => Ok(s),
        Err(m) => Err(Error::HtmlRewrite(m)),
    }
}

} // verus!
