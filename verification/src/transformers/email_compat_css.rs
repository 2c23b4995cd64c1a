//! Inline styles made email-client compatible.
//!
//! - `rem` values become `px` (1rem = 16px; Outlook does not support rem)
//! - CSS logical properties become their physical equivalents
//! - `gap`, `row-gap` and `column-gap` are dropped
use vstd::prelude::*;
use lol_html::errors::AttributeNameError;
use crate::error::Error;
use crate::html::{attr_get, attr_set, element_attrs, element_tag, get_attribute, set_attribute, HtmlElement};
use crate::rewrite::{rewrite, rewrite_outcome, HtmlRule, RewriteLog, RuleView};
use crate::text::{
    chars_of, eq_str, find, find_char, is_alnum, is_ascii_alphanumeric, is_ascii_digit, is_digit,
    join, join_with, lemma_find_from_facts, lemma_find_suffix, lit, push_all, push_range, push_str,
    same, slice, split_char, split_on, string_of, trim, trimmed, find_from, matches_at, contains, ends_with,
};

verus! {

broadcast use vstd::string::group_string_axioms;

// ───────────────────────────── decimal arithmetic ─────────────────────────────

/// The value of a sequence of decimal digits, most significant first.
pub open spec fn dval(d: Seq<u8>) -> nat
    decreases d.len(),
{
    if d.len() == 0 {
        0
    } else {
        dval(d.drop_last()) * 10 + d.last() as nat
    }
}

pub open spec fn is_digits(d: Seq<u8>) -> bool {
    forall|i: int| 0 <= i < d.len() ==> #[trigger] d[i] < 10
}

pub open spec fn pow10(n: nat) -> nat
    decreases n,
{
    if n == 0 { 1 } else { 10 * pow10((n - 1) as nat) }
}

/// Multiplying by 16 with the carry running from the last digit to the first:
/// the digits of the product's low part, and the carry out.
pub open spec fn times16_carry(d: Seq<u8>) -> (Seq<u8>, nat)
    decreases d.len(),
{
    if d.len() == 0 {
        (seq![], 0)
    } else {
        let (m, c) = times16_carry(d.drop_first());
        let t = 16 * (d[0] as nat) + c;
        (seq![(t % 10) as u8] + m, t / 10)
    }
}

/// The digits of `16 × d`, two digits longer than `d`.
pub open spec fn times16(d: Seq<u8>) -> Seq<u8> {
    let (m, c) = times16_carry(d);
    seq![(c / 10) as u8, (c % 10) as u8] + m
}

proof fn lemma_dval_prepend(x: u8, s: Seq<u8>)
    ensures dval(seq![x] + s) == (x as nat) * pow10(s.len()) + dval(s),
    decreases s.len(),
{
    let w = seq![x] + s;
    if s.len() == 0 {
        assert(w == seq![x]);
        assert(w.drop_last() =~= Seq::<u8>::empty());
        assert(dval(w.drop_last()) == 0);
        assert(dval(w) == x as nat);
        assert(pow10(0) == 1);
    } else {
        assert(w.drop_last() =~= seq![x] + s.drop_last());
        lemma_dval_prepend(x, s.drop_last());
        assert(pow10(s.len()) == 10 * pow10((s.len() - 1) as nat));
        assert(w.last() == s.last());
        assert(dval(w) == dval(w.drop_last()) * 10 + s.last() as nat);
        assert(dval(s) == dval(s.drop_last()) * 10 + s.last() as nat);
        assert(((x as nat) * pow10(s.drop_last().len()) + dval(s.drop_last())) * 10 + s.last() as nat
            == (x as nat) * (10 * pow10(s.drop_last().len())) + (dval(s.drop_last()) * 10 + s.last() as nat)) by (nonlinear_arith);
    }
}

proof fn lemma_times16_carry(d: Seq<u8>)
    requires is_digits(d),
    ensures ({
        let (m, c) = times16_carry(d);
        &&& m.len() == d.len()
        &&& is_digits(m)
        &&& c < 16
        &&& dval(m) + c * pow10(d.len()) == 16 * dval(d)
    }),
    decreases d.len(),
{
    if d.len() > 0 {
        let rest = d.drop_first();
        assert(is_digits(rest));
        lemma_times16_carry(rest);
        let (m1, c1) = times16_carry(rest);
        let t = 16 * (d[0] as nat) + c1;
        let m = seq![(t % 10) as u8] + m1;
        assert(d =~= seq![d[0]] + rest);
        lemma_dval_prepend(d[0], rest);
        lemma_dval_prepend((t % 10) as u8, m1);
        assert(pow10(d.len()) == 10 * pow10(rest.len()));
        let p = pow10(rest.len());
        assert(dval(m) + (t / 10) * (10 * p) == t * p + dval(m1)) by (nonlinear_arith)
            requires dval(m) == (t % 10) * p + dval(m1);
        assert(t * p + dval(m1) == 16 * ((d[0] as nat) * p + dval(rest))) by (nonlinear_arith)
            requires t == 16 * (d[0] as nat) + c1, dval(m1) + c1 * p == 16 * dval(rest);
        assert forall|i: int| 0 <= i < m.len() implies #[trigger] m[i] < 10 by {
            if i > 0 {
                assert(m[i] == m1[i - 1]);
            }
        }
    }
}

/// `times16(d)` holds the decimal digits of sixteen times the value of `d`.
pub proof fn lemma_times16(d: Seq<u8>)
    requires is_digits(d),
    ensures
        times16(d).len() == d.len() + 2,
        is_digits(times16(d)),
        dval(times16(d)) == 16 * dval(d),
{
    lemma_times16_carry(d);
    let (m, c) = times16_carry(d);
    let w = times16(d);
    assert(w =~= seq![(c / 10) as u8] + (seq![(c % 10) as u8] + m));
    lemma_dval_prepend((c % 10) as u8, m);
    lemma_dval_prepend((c / 10) as u8, seq![(c % 10) as u8] + m);
    assert(pow10(m.len() + 1) == 10 * pow10(m.len()));
    let p = pow10(m.len());
    assert((c / 10) * (10 * p) + ((c % 10) * p + dval(m)) == c * p + dval(m)) by (nonlinear_arith);
    assert forall|i: int| 0 <= i < w.len() implies #[trigger] w[i] < 10 by {
        if i >= 2 {
            assert(w[i] == m[i - 2]);
        }
    }
}

/// Multiplies a digit string by 16.
fn times16_exec(d: &Vec<u8>) -> (r: Vec<u8>)
    requires is_digits(d@),
    ensures r@ == times16(d@),
{
    let n = d.len();
    let mut out: Vec<u8> = Vec::new();
    let mut k: usize = 0;
    while k < n
        invariant
            k <= n,
            out@.len() == k,
        decreases n - k,
    {
        out.push(0);
        k = k + 1;
    }
    let mut carry: u8 = 0;
    let mut i: usize = n;
    assert(d@.subrange(n as int, n as int) =~= Seq::<u8>::empty());
    while i > 0
        invariant
            i <= n == d.len(),
            out@.len() == n,
            carry < 16,
            is_digits(d@),
            times16_carry(d@.subrange(i as int, n as int)).1 == carry as nat,
            out@.subrange(i as int, n as int) == times16_carry(d@.subrange(i as int, n as int)).0,
        decreases i,
    {
        let ghost tail = d@.subrange(i as int, n as int);
        let ghost prev = out@;
        let di = d[i - 1];
        assert(di < 10);
        let t: u8 = 16 * di + carry;
        out.set(i - 1, t % 10);
        carry = t / 10;
        proof {
            let s = d@.subrange(i - 1, n as int);
            assert(s.drop_first() =~= tail);
            assert(s[0] == di);
            assert(out@.subrange(i - 1, n as int) =~= seq![(t % 10) as u8] + prev.subrange(i as int, n as int));
        }
        i = i - 1;
    }
    assert(d@.subrange(0, n as int) == d@);
    let mut r: Vec<u8> = Vec::new();
    r.push(carry / 10);
    r.push(carry % 10);
    let mut j: usize = 0;
    while j < n
        invariant
            j <= n == out@.len(),
            r@ == seq![(carry / 10) as u8, (carry % 10) as u8] + out@.subrange(0, j as int),
        decreases n - j,
    {
        r.push(out[j]);
        assert(out@.subrange(0, j + 1) == out@.subrange(0, j as int).push(out@[j as int]));
        j = j + 1;
    }
    assert(out@.subrange(0, n as int) == out@);
    r
}

/// The character of a decimal digit.
pub open spec fn digit_char(d: u8) -> char {
    (d + 48) as char
}

pub open spec fn digit_of(c: char) -> u8 {
    ((c as u32) - 48) as u8
}

/// A digit string with its leading zeros dropped; `"0"` when nothing is left.
pub open spec fn strip_leading_zeros(d: Seq<u8>) -> Seq<u8>
    decreases d.len(),
{
    if d.len() == 0 {
        seq![0]
    } else if d[0] == 0 && d.len() > 1 {
        strip_leading_zeros(d.drop_first())
    } else if d[0] == 0 {
        seq![0]
    } else {
        d
    }
}

/// A digit string with its trailing zeros dropped.
pub open spec fn strip_trailing_zeros(d: Seq<u8>) -> Seq<u8>
    decreases d.len(),
{
    if d.len() > 0 && d.last() == 0 {
        strip_trailing_zeros(d.drop_last())
    } else {
        d
    }
}

pub open spec fn all_zero(d: Seq<u8>) -> bool {
    forall|i: int| 0 <= i < d.len() ==> #[trigger] d[i] == 0
}

pub open spec fn digit_text(d: Seq<u8>) -> Seq<char> {
    d.map_values(|x: u8| digit_char(x))
}

/// The characters `-`, digits and `.` of which a rem number is made.
pub open spec fn is_number_char(c: char) -> bool {
    is_digit(c) || c == '.' || c == '-'
}

/// `str::parse::<f64>` accepts a run of digits, dots and minus signs when it is
/// an optional leading `-`, then digits with at most one `.`, at least one digit.
pub open spec fn number_body(num: Seq<char>) -> Seq<char> {
    if num.len() > 0 && num[0] == '-' { num.drop_first() } else { num }
}

pub open spec fn valid_decimal(num: Seq<char>) -> bool {
    let body = number_body(num);
    &&& forall|i: int| 0 <= i < body.len() ==> (is_digit(#[trigger] body[i]) || body[i] == '.')
    &&& forall|i: int, j: int| 0 <= i < j < body.len() && body[i] == '.' ==> body[j] != '.'
    &&& exists|i: int| 0 <= i < body.len() && is_digit(#[trigger] body[i])
}

/// The digits of a decimal number with its point removed, and how many of them
/// follow the point.
pub open spec fn decimal_parts(num: Seq<char>) -> (Seq<u8>, nat) {
    let body = number_body(num);
    match find(body, seq!['.']) {
        Some(p) => (
            body.subrange(0, p).map_values(|c: char| digit_of(c))
                + body.subrange(p + 1, body.len() as int).map_values(|c: char| digit_of(c)),
            (body.len() - p - 1) as nat,
        ),
        None => (body.map_values(|c: char| digit_of(c)), 0),
    }
}

/// How `f64`'s `Display` renders `16 × num` for a decimal `num` (exact decimal
/// arithmetic): an integral result prints without a fraction (and without a
/// sign when zero); otherwise the fraction is printed without trailing zeros.
pub open spec fn spec_px_text(num: Seq<char>) -> Seq<char> {
    let neg = num.len() > 0 && num[0] == '-';
    let (d, k) = decimal_parts(num);
    let m = times16(d);
    let int_part = m.subrange(0, m.len() - k);
    let frac = m.subrange(m.len() - k, m.len() as int);
    if all_zero(frac) {
        (if neg && !all_zero(int_part) { seq!['-'] } else { seq![] })
            + digit_text(strip_leading_zeros(int_part))
    } else {
        (if neg { seq!['-'] } else { seq![] }) + digit_text(strip_leading_zeros(int_part))
            + seq!['.'] + digit_text(strip_trailing_zeros(frac))
    }
}

// ───────────────────────────── rem → px ─────────────────────────────

/// The end of the run of number characters starting at `i`.
pub open spec fn number_end(s: Seq<char>, i: int) -> int
    decreases s.len() - i,
{
    if 0 <= i < s.len() && is_number_char(s[i]) {
        number_end(s, i + 1)
    } else {
        i
    }
}

/// A number directly followed by `rem` (not by a longer word) at the start of
/// `s`: the number's length and where the unit ends.
pub open spec fn number_rem(s: Seq<char>) -> Option<(int, int)> {
    let n = number_end(s, 0);
    if n == 0 {
        None
    } else if n + 3 <= s.len() && s[n] == 'r' && s[n + 1] == 'e' && s[n + 2] == 'm'
        && (n + 3 == s.len() || !(is_alnum(s[n + 3]) || s[n + 3] == '-')) {
        Some((n, n + 3))
    } else {
        None
    }
}

/// Every number followed by `rem` becomes its pixel value (16 per rem); every
/// other character is copied.
pub open spec fn spec_rem_to_px(s: Seq<char>) -> Seq<char>
    decreases s.len(),
{
    if s.len() == 0 {
        seq![]
    } else {
        match number_rem(s) {
            Some((n, end)) => if valid_decimal(s.subrange(0, n)) && 0 < end <= s.len() {
                spec_px_text(s.subrange(0, n)) + "px"@ + spec_rem_to_px(s.subrange(end, s.len() as int))
            } else {
                seq![s[0]] + spec_rem_to_px(s.drop_first())
            },
            None => seq![s[0]] + spec_rem_to_px(s.drop_first()),
        }
    }
}

/// A text with no `rem` in it comes through unchanged.
pub proof fn lemma_without_rem_unchanged(s: Seq<char>)
    requires
        find(s, "rem"@) is None,
    ensures
        spec_rem_to_px(s) == s,
    decreases s.len(),
{
    reveal_strlit("rem");
    if s.len() > 0 {
        let rest = s.drop_first();
        lemma_find_from_facts(s, "rem"@, 0);
        lemma_find_from_facts(s, "rem"@, 1);
        lemma_find_suffix(s, "rem"@, 1);
        assert(s.subrange(1, s.len() as int) == rest);
        lemma_without_rem_unchanged(rest);
        lemma_number_end(s, 0);
        assert("rem"@ =~= seq!['r', 'e', 'm']);
        if let Some((n, end)) = number_rem(s) {
            assert(s.subrange(n, n + 3) =~= "rem"@);
            assert(matches_at(s, n, "rem"@));
        }
        assert(s =~= seq![s[0]] + rest);
    }
}

// ───────────────────────────── declarations ─────────────────────────────

/// The physical properties a property is written as: a logical property's
/// physical equivalents, none for the gap properties, else itself.
pub open spec fn spec_physical(p: Seq<char>) -> Seq<Seq<char>> {
    if p == "padding-inline"@ { seq!["padding-left"@, "padding-right"@] }
    else if p == "padding-block"@ { seq!["padding-top"@, "padding-bottom"@] }
    else if p == "padding-inline-start"@ { seq!["padding-left"@] }
    else if p == "padding-inline-end"@ { seq!["padding-right"@] }
    else if p == "padding-block-start"@ { seq!["padding-top"@] }
    else if p == "padding-block-end"@ { seq!["padding-bottom"@] }
    else if p == "margin-inline"@ { seq!["margin-left"@, "margin-right"@] }
    else if p == "margin-block"@ { seq!["margin-top"@, "margin-bottom"@] }
    else if p == "margin-inline-start"@ { seq!["margin-left"@] }
    else if p == "margin-inline-end"@ { seq!["margin-right"@] }
    else if p == "margin-block-start"@ { seq!["margin-top"@] }
    else if p == "margin-block-end"@ { seq!["margin-bottom"@] }
    else if p == "inset-inline"@ { seq!["left"@, "right"@] }
    else if p == "inset-block"@ { seq!["top"@, "bottom"@] }
    else if p == "border-inline"@ { seq!["border-left"@, "border-right"@] }
    else if p == "border-block"@ { seq!["border-top"@, "border-bottom"@] }
    else if p == "inline-size"@ { seq!["width"@] }
    else if p == "block-size"@ { seq!["height"@] }
    else if p == "min-inline-size"@ { seq!["min-width"@] }
    else if p == "max-inline-size"@ { seq!["max-width"@] }
    else if p == "min-block-size"@ { seq!["min-height"@] }
    else if p == "max-block-size"@ { seq!["max-height"@] }
    else if p == "gap"@ || p == "row-gap"@ || p == "column-gap"@ { seq![] }
    else { seq![p] }
}

/// For padding and margin, the logical sides are the left-to-right,
/// top-to-bottom physical ones: `-inline` is left then right, `-block` is top
/// then bottom, a `-start` side is the first of its pair and an `-end` side
/// the second.
pub proof fn lemma_logical_sides(b: Seq<char>)
    requires
        b == "padding"@ || b == "margin"@,
    ensures
        spec_physical(b + "-inline"@) == seq![b + "-left"@, b + "-right"@],
        spec_physical(b + "-block"@) == seq![b + "-top"@, b + "-bottom"@],
        spec_physical(b + "-inline-start"@) == seq![spec_physical(b + "-inline"@)[0]],
        spec_physical(b + "-inline-end"@) == seq![spec_physical(b + "-inline"@)[1]],
        spec_physical(b + "-block-start"@) == seq![spec_physical(b + "-block"@)[0]],
        spec_physical(b + "-block-end"@) == seq![spec_physical(b + "-block"@)[1]],
{
    reveal_strlit("padding"); reveal_strlit("margin");
    reveal_strlit("-inline"); reveal_strlit("-block"); reveal_strlit("-inline-start"); reveal_strlit("-inline-end");
    reveal_strlit("-block-start"); reveal_strlit("-block-end");
    reveal_strlit("-left"); reveal_strlit("-right"); reveal_strlit("-top"); reveal_strlit("-bottom");
    reveal_strlit("padding-inline"); reveal_strlit("padding-block");
    reveal_strlit("padding-inline-start"); reveal_strlit("padding-inline-end");
    reveal_strlit("padding-block-start"); reveal_strlit("padding-block-end");
    reveal_strlit("margin-inline"); reveal_strlit("margin-block");
    reveal_strlit("margin-inline-start"); reveal_strlit("margin-inline-end");
    reveal_strlit("margin-block-start"); reveal_strlit("margin-block-end");
    reveal_strlit("padding-left"); reveal_strlit("padding-right"); reveal_strlit("padding-top"); reveal_strlit("padding-bottom");
    reveal_strlit("margin-left"); reveal_strlit("margin-right"); reveal_strlit("margin-top"); reveal_strlit("margin-bottom");
    if b == "padding"@ {
        assert(b + "-inline"@ =~= "padding-inline"@);
        assert(b + "-block"@ =~= "padding-block"@);
        assert(b + "-inline-start"@ =~= "padding-inline-start"@);
        assert(b + "-inline-end"@ =~= "padding-inline-end"@);
        assert(b + "-block-start"@ =~= "padding-block-start"@);
        assert(b + "-block-end"@ =~= "padding-block-end"@);
        assert(b + "-left"@ =~= "padding-left"@);
        assert(b + "-right"@ =~= "padding-right"@);
        assert(b + "-top"@ =~= "padding-top"@);
        assert(b + "-bottom"@ =~= "padding-bottom"@);
        assert(seq![b + "-left"@, b + "-right"@] =~= seq!["padding-left"@, "padding-right"@]);
        assert(spec_physical("padding-inline"@) == seq!["padding-left"@, "padding-right"@]);
        assert(spec_physical("padding-inline"@)[0] == "padding-left"@);
        assert(spec_physical("padding-inline"@)[1] == "padding-right"@);
    } else {
        assert("margin-inline"@[0] == 'm' && "margin-inline-start"@[0] == 'm' && "margin-inline-end"@[0] == 'm');
        assert("margin-block-start"@[0] == 'm' && "margin-block"@[0] == 'm' && "margin-block-end"@[0] == 'm');
        assert("padding-block"@[0] == 'p' && "padding-block-start"@[0] == 'p' && "padding-block-end"@[0] == 'p');
        assert("padding-inline-end"@[0] == 'p' && "padding-inline"@[0] == 'p' && "padding-inline-start"@[0] == 'p');
        assert(b + "-inline"@ =~= "margin-inline"@);
        assert(b + "-block"@ =~= "margin-block"@);
        assert(b + "-inline-start"@ =~= "margin-inline-start"@);
        assert(b + "-inline-end"@ =~= "margin-inline-end"@);
        assert(b + "-block-start"@ =~= "margin-block-start"@);
        assert(b + "-block-end"@ =~= "margin-block-end"@);
        assert(b + "-left"@ =~= "margin-left"@);
        assert(b + "-right"@ =~= "margin-right"@);
        assert(b + "-top"@ =~= "margin-top"@);
        assert(b + "-bottom"@ =~= "margin-bottom"@);
        assert(seq![b + "-left"@, b + "-right"@] =~= seq!["margin-left"@, "margin-right"@]);
        assert(spec_physical("margin-inline"@) == seq!["margin-left"@, "margin-right"@]);
        assert(spec_physical("margin-inline"@)[0] == "margin-left"@);
        assert(spec_physical("margin-inline"@)[1] == "margin-right"@);
    }
}

proof fn lemma_contains_at(s: Seq<char>, p: Seq<char>, i: int)
    requires
        0 <= i,
        i + p.len() <= s.len(),
        s.subrange(i, i + p.len()) =~= p,
    ensures
        contains(s, p),
{
    lemma_find_from_facts(s, p, 0);
    assert(matches_at(s, i, p));
}

/// Only logical properties and the gaps are touched: a property that names
/// neither the inline nor the block axis and is not a gap is kept as it is.
#[verifier::rlimit(60)]
pub proof fn lemma_physical_keeps_others(p: Seq<char>)
    requires
        !contains(p, "inline"@),
        !contains(p, "block"@),
        !ends_with(p, "gap"@),
    ensures
        spec_physical(p) == seq![p],
{
    reveal_strlit("inline");
    reveal_strlit("block");
    reveal_strlit("gap");
    reveal_strlit("padding-inline");
    lemma_contains_at("padding-inline"@, "inline"@, 8);
    reveal_strlit("padding-inline-start");
    lemma_contains_at("padding-inline-start"@, "inline"@, 8);
    reveal_strlit("padding-inline-end");
    lemma_contains_at("padding-inline-end"@, "inline"@, 8);
    reveal_strlit("margin-inline");
    lemma_contains_at("margin-inline"@, "inline"@, 7);
    reveal_strlit("margin-inline-start");
    lemma_contains_at("margin-inline-start"@, "inline"@, 7);
    reveal_strlit("margin-inline-end");
    lemma_contains_at("margin-inline-end"@, "inline"@, 7);
    reveal_strlit("inset-inline");
    lemma_contains_at("inset-inline"@, "inline"@, 6);
    reveal_strlit("border-inline");
    lemma_contains_at("border-inline"@, "inline"@, 7);
    reveal_strlit("inline-size");
    lemma_contains_at("inline-size"@, "inline"@, 0);
    reveal_strlit("min-inline-size");
    lemma_contains_at("min-inline-size"@, "inline"@, 4);
    reveal_strlit("max-inline-size");
    lemma_contains_at("max-inline-size"@, "inline"@, 4);
    reveal_strlit("padding-block");
    lemma_contains_at("padding-block"@, "block"@, 8);
    reveal_strlit("padding-block-start");
    lemma_contains_at("padding-block-start"@, "block"@, 8);
    reveal_strlit("padding-block-end");
    lemma_contains_at("padding-block-end"@, "block"@, 8);
    reveal_strlit("margin-block");
    lemma_contains_at("margin-block"@, "block"@, 7);
    reveal_strlit("margin-block-start");
    lemma_contains_at("margin-block-start"@, "block"@, 7);
    reveal_strlit("margin-block-end");
    lemma_contains_at("margin-block-end"@, "block"@, 7);
    reveal_strlit("inset-block");
    lemma_contains_at("inset-block"@, "block"@, 6);
    reveal_strlit("border-block");
    lemma_contains_at("border-block"@, "block"@, 7);
    reveal_strlit("block-size");
    lemma_contains_at("block-size"@, "block"@, 0);
    reveal_strlit("min-block-size");
    lemma_contains_at("min-block-size"@, "block"@, 4);
    reveal_strlit("max-block-size");
    lemma_contains_at("max-block-size"@, "block"@, 4);
    reveal_strlit("gap");
    assert("gap"@.subrange(0, 3) =~= "gap"@);
    reveal_strlit("row-gap");
    assert("row-gap"@.subrange(4, 7) =~= "gap"@);
    reveal_strlit("column-gap");
    assert("column-gap"@.subrange(7, 10) =~= "gap"@);
}

/// Lengths and first letters that tell the logical property names apart.
proof fn lemma_physical_literals()
    ensures
        "padding-inline"@.len() == 14 && "padding-inline"@[0] == 'p' && "padding-inline"@[1] == 'a' && "padding-inline"@[2] == 'd',
        "padding-block"@.len() == 13 && "padding-block"@[0] == 'p' && "padding-block"@[1] == 'a' && "padding-block"@[2] == 'd',
        "padding-inline-start"@.len() == 20 && "padding-inline-start"@[0] == 'p' && "padding-inline-start"@[1] == 'a' && "padding-inline-start"@[2] == 'd',
        "padding-inline-end"@.len() == 18 && "padding-inline-end"@[0] == 'p' && "padding-inline-end"@[1] == 'a' && "padding-inline-end"@[2] == 'd',
        "padding-block-start"@.len() == 19 && "padding-block-start"@[0] == 'p' && "padding-block-start"@[1] == 'a' && "padding-block-start"@[2] == 'd',
        "padding-block-end"@.len() == 17 && "padding-block-end"@[0] == 'p' && "padding-block-end"@[1] == 'a' && "padding-block-end"@[2] == 'd',
        "margin-inline"@.len() == 13 && "margin-inline"@[0] == 'm' && "margin-inline"@[1] == 'a' && "margin-inline"@[2] == 'r',
        "margin-block"@.len() == 12 && "margin-block"@[0] == 'm' && "margin-block"@[1] == 'a' && "margin-block"@[2] == 'r',
        "margin-inline-start"@.len() == 19 && "margin-inline-start"@[0] == 'm' && "margin-inline-start"@[1] == 'a' && "margin-inline-start"@[2] == 'r',
        "margin-inline-end"@.len() == 17 && "margin-inline-end"@[0] == 'm' && "margin-inline-end"@[1] == 'a' && "margin-inline-end"@[2] == 'r',
        "margin-block-start"@.len() == 18 && "margin-block-start"@[0] == 'm' && "margin-block-start"@[1] == 'a' && "margin-block-start"@[2] == 'r',
        "margin-block-end"@.len() == 16 && "margin-block-end"@[0] == 'm' && "margin-block-end"@[1] == 'a' && "margin-block-end"@[2] == 'r',
        "inset-inline"@.len() == 12 && "inset-inline"@[0] == 'i' && "inset-inline"@[1] == 'n' && "inset-inline"@[2] == 's',
        "inset-block"@.len() == 11 && "inset-block"@[0] == 'i' && "inset-block"@[1] == 'n' && "inset-block"@[2] == 's',
        "border-inline"@.len() == 13 && "border-inline"@[0] == 'b' && "border-inline"@[1] == 'o' && "border-inline"@[2] == 'r',
        "border-block"@.len() == 12 && "border-block"@[0] == 'b' && "border-block"@[1] == 'o' && "border-block"@[2] == 'r',
        "inline-size"@.len() == 11 && "inline-size"@[0] == 'i' && "inline-size"@[1] == 'n' && "inline-size"@[2] == 'l',
        "block-size"@.len() == 10 && "block-size"@[0] == 'b' && "block-size"@[1] == 'l' && "block-size"@[2] == 'o',
        "min-inline-size"@.len() == 15 && "min-inline-size"@[0] == 'm' && "min-inline-size"@[1] == 'i' && "min-inline-size"@[2] == 'n',
        "max-inline-size"@.len() == 15 && "max-inline-size"@[0] == 'm' && "max-inline-size"@[1] == 'a' && "max-inline-size"@[2] == 'x',
        "min-block-size"@.len() == 14 && "min-block-size"@[0] == 'm' && "min-block-size"@[1] == 'i' && "min-block-size"@[2] == 'n',
        "max-block-size"@.len() == 14 && "max-block-size"@[0] == 'm' && "max-block-size"@[1] == 'a' && "max-block-size"@[2] == 'x',
        "gap"@.len() == 3 && "gap"@[0] == 'g' && "gap"@[1] == 'a' && "gap"@[2] == 'p',
        "row-gap"@.len() == 7 && "row-gap"@[0] == 'r' && "row-gap"@[1] == 'o' && "row-gap"@[2] == 'w',
        "column-gap"@.len() == 10 && "column-gap"@[0] == 'c' && "column-gap"@[1] == 'o' && "column-gap"@[2] == 'l',
{
    reveal_strlit("padding-inline");
    reveal_strlit("padding-block");
    reveal_strlit("padding-inline-start");
    reveal_strlit("padding-inline-end");
    reveal_strlit("padding-block-start");
    reveal_strlit("padding-block-end");
    reveal_strlit("margin-inline");
    reveal_strlit("margin-block");
    reveal_strlit("margin-inline-start");
    reveal_strlit("margin-inline-end");
    reveal_strlit("margin-block-start");
    reveal_strlit("margin-block-end");
    reveal_strlit("inset-inline");
    reveal_strlit("inset-block");
    reveal_strlit("border-inline");
    reveal_strlit("border-block");
    reveal_strlit("inline-size");
    reveal_strlit("block-size");
    reveal_strlit("min-inline-size");
    reveal_strlit("max-inline-size");
    reveal_strlit("min-block-size");
    reveal_strlit("max-block-size");
    reveal_strlit("gap");
    reveal_strlit("row-gap");
    reveal_strlit("column-gap");
}

/// The sizes along the inline axis are widths and those along the block
/// axis heights, with their `min-` and `max-` bounds: `inline-size` is
/// `width`, `max-block-size` is `max-height`, and so on.
pub proof fn lemma_logical_sizes(x: Seq<char>)
    requires
        x == ""@ || x == "min-"@ || x == "max-"@,
    ensures
        spec_physical(x + "inline-size"@) == seq![x + "width"@],
        spec_physical(x + "block-size"@) == seq![x + "height"@],
{
    reveal_strlit("padding-inline");
    reveal_strlit("padding-block");
    reveal_strlit("padding-inline-start");
    reveal_strlit("padding-inline-end");
    reveal_strlit("padding-block-start");
    reveal_strlit("padding-block-end");
    reveal_strlit("margin-inline");
    reveal_strlit("margin-block");
    reveal_strlit("margin-inline-start");
    reveal_strlit("margin-inline-end");
    reveal_strlit("margin-block-start");
    reveal_strlit("margin-block-end");
    reveal_strlit("inset-inline");
    reveal_strlit("inset-block");
    reveal_strlit("border-inline");
    reveal_strlit("border-block");
    reveal_strlit("inline-size");
    reveal_strlit("block-size");
    reveal_strlit("min-inline-size");
    reveal_strlit("max-inline-size");
    reveal_strlit("min-block-size");
    reveal_strlit("max-block-size");
    lemma_physical_literals();
    reveal_strlit(""); reveal_strlit("min-"); reveal_strlit("max-");
    reveal_strlit("width"); reveal_strlit("height"); reveal_strlit("min-width"); reveal_strlit("max-width");
    reveal_strlit("min-height"); reveal_strlit("max-height");
    if x == ""@ {
        assert(x + "inline-size"@ =~= "inline-size"@);
        assert(x + "block-size"@ =~= "block-size"@);
        assert(x + "width"@ =~= "width"@);
        assert(x + "height"@ =~= "height"@);
        assert(seq![x + "width"@] =~= seq!["width"@]);
        assert(seq![x + "height"@] =~= seq!["height"@]);
    } else if x == "min-"@ {
        assert(x + "inline-size"@ =~= "min-inline-size"@);
        assert(x + "block-size"@ =~= "min-block-size"@);
        assert(x + "width"@ =~= "min-width"@);
        assert(x + "height"@ =~= "min-height"@);
        assert(seq![x + "width"@] =~= seq!["min-width"@]);
        assert(seq![x + "height"@] =~= seq!["min-height"@]);
    } else {
        assert(x + "inline-size"@ =~= "max-inline-size"@);
        assert(x + "block-size"@ =~= "max-block-size"@);
        assert(x + "width"@ =~= "max-width"@);
        assert(x + "height"@ =~= "max-height"@);
        assert(seq![x + "width"@] =~= seq!["max-width"@]);
        assert(seq![x + "height"@] =~= seq!["max-height"@]);
    }
}

/// Inline-axis shorthands cover the left and right sides, block-axis ones
/// the top and bottom: `border-inline` is `border-left` then `border-right`,
/// `inset-inline` is `left` then `right`, and so on; the gaps, which email
/// clients do not support, are dropped.
pub proof fn lemma_axis_shorthands()
    ensures
        spec_physical("gap"@).len() == 0,
        spec_physical("row-gap"@).len() == 0,
        spec_physical("column-gap"@).len() == 0,
        spec_physical("border-inline"@) == seq!["border"@ + "-left"@, "border"@ + "-right"@],
        spec_physical("border-block"@) == seq!["border"@ + "-top"@, "border"@ + "-bottom"@],
        spec_physical("inset-inline"@) == seq!["left"@, "right"@],
        spec_physical("inset-block"@) == seq!["top"@, "bottom"@],
{
    reveal_strlit("padding-inline");
    reveal_strlit("padding-block");
    reveal_strlit("padding-inline-start");
    reveal_strlit("padding-inline-end");
    reveal_strlit("padding-block-start");
    reveal_strlit("padding-block-end");
    reveal_strlit("margin-inline");
    reveal_strlit("margin-block");
    reveal_strlit("margin-inline-start");
    reveal_strlit("margin-inline-end");
    reveal_strlit("margin-block-start");
    reveal_strlit("margin-block-end");
    reveal_strlit("inset-inline");
    reveal_strlit("inset-block");
    reveal_strlit("border-inline");
    reveal_strlit("border-block");
    reveal_strlit("inline-size");
    reveal_strlit("block-size");
    reveal_strlit("min-inline-size");
    reveal_strlit("max-inline-size");
    reveal_strlit("min-block-size");
    reveal_strlit("max-block-size");
    lemma_physical_literals();
    reveal_strlit("border"); reveal_strlit("-left"); reveal_strlit("-right"); reveal_strlit("-top"); reveal_strlit("-bottom");
    reveal_strlit("border-left"); reveal_strlit("border-right"); reveal_strlit("border-top"); reveal_strlit("border-bottom");
    assert("border"@ + "-left"@ =~= "border-left"@);
    assert("border"@ + "-right"@ =~= "border-right"@);
    assert("border"@ + "-top"@ =~= "border-top"@);
    assert("border"@ + "-bottom"@ =~= "border-bottom"@);
    assert(seq!["border"@ + "-left"@, "border"@ + "-right"@] =~= seq!["border-left"@, "border-right"@]);
    assert(seq!["border"@ + "-top"@, "border"@ + "-bottom"@] =~= seq!["border-top"@, "border-bottom"@]);
}

/// The output declarations for one `;`-separated piece of a style: nothing for
/// a blank piece, the trimmed piece when it has no `:`, else `prop: value`
/// for each physical property, with rem values in px.
pub open spec fn spec_convert_decl(piece: Seq<char>) -> Seq<Seq<char>> {
    let d = trim(piece);
    if d.len() == 0 {
        seq![]
    } else {
        match find(d, seq![':']) {
            None => seq![d],
            Some(i) => {
                let v = spec_rem_to_px(trim(d.subrange(i + 1, d.len() as int)));
                spec_physical(trim(d.subrange(0, i))).map_values(|q: Seq<char>| q + ": "@ + v)
            },
        }
    }
}

pub open spec fn spec_convert_decls(pieces: Seq<Seq<char>>) -> Seq<Seq<char>>
    decreases pieces.len(),
{
    if pieces.len() == 0 {
        seq![]
    } else {
        spec_convert_decls(pieces.drop_last()) + spec_convert_decl(pieces.last())
    }
}

/// A style attribute converted: the declarations joined with `; ` and ended
/// with `;`, or empty when no declaration is left.
pub open spec fn spec_convert_style(style: Seq<char>) -> Seq<char> {
    let decls = spec_convert_decls(split_char(style, ';'));
    if decls.len() == 0 {
        seq![]
    } else {
        join(decls, "; "@) + ";"@
    }
}

/// What the transformer does to an element's attributes: a `style` attribute
/// whose conversion differs is replaced by it.
pub open spec fn spec_element(attrs: Seq<(Seq<char>, Seq<char>)>) -> Seq<(Seq<char>, Seq<char>)> {
    match attr_get(attrs, "style"@) {
        Some(s) => if spec_convert_style(s) != s {
            attr_set(attrs, "style"@, spec_convert_style(s))
        } else {
            attrs
        },
        None => attrs,
    }
}

// ───────────────────────────── implementation ─────────────────────────────

/// Rewrites `rem` units, logical properties and gap properties in every
/// inline `style` attribute.
pub fn process(html: &str) -> (r: Result<String, Error>)
    ensures
        r is Ok <==> rewrite_outcome(html@, "style"@, true, RuleView::EmailCompat) is Ok,
        r matches Ok(s) ==> rewrite_outcome(html@, "style"@, true, RuleView::EmailCompat)->Ok_0.0 == s@,
        r matches Err(e) ==> (e matches Error::HtmlRewrite(m) && rewrite_outcome(html@, "style"@, true, RuleView::EmailCompat) matches Err(o) && o == m@),
{
    proof { reveal_strlit("style"); }
    let mut log = RewriteLog::new();
    match rewrite(html, "style", true, &HtmlRule::EmailCompat, &mut log) {
        Ok(s) => Ok(s),
        Err(m) => Err(Error::HtmlRewrite(m)),
    }
}

/// Converts the `style` attribute of one element.
pub fn on_element(el: &mut HtmlElement) -> (r: Result<(), AttributeNameError>)
    ensures
        r is Ok,
        crate::html::same_frame(*final(el), *old(el)),
        element_attrs(*final(el)) == spec_element(element_attrs(*old(el))),
{
    proof { reveal_strlit("style"); }
    if let Some(style) = get_attribute(el, "style") {
        let sv = chars_of(style.as_str());
        let converted = convert_style_chars(&sv);
        if !same(&converted, &sv) {
            let cs = string_of(converted.as_slice());
            return set_attribute(el, "style", cs.as_str());
        }
    }
    Ok(())
}

/// The physical properties of `p` (see `spec_physical`).
fn physical(p: &Vec<char>) -> (r: Vec<Vec<char>>)
    ensures
        r@.len() == spec_physical(p@).len(),
        forall|k: int| 0 <= k < r@.len() ==> #[trigger] r@[k]@ == spec_physical(p@)[k],
{
    let mut r: Vec<Vec<char>> = Vec::new();
    if eq_str(p, "padding-inline") { r.push(lit("padding-left")); r.push(lit("padding-right")); }
    else if eq_str(p, "padding-block") { r.push(lit("padding-top")); r.push(lit("padding-bottom")); }
    else if eq_str(p, "padding-inline-start") { r.push(lit("padding-left")); }
    else if eq_str(p, "padding-inline-end") { r.push(lit("padding-right")); }
    else if eq_str(p, "padding-block-start") { r.push(lit("padding-top")); }
    else if eq_str(p, "padding-block-end") { r.push(lit("padding-bottom")); }
    else if eq_str(p, "margin-inline") { r.push(lit("margin-left")); r.push(lit("margin-right")); }
    else if eq_str(p, "margin-block") { r.push(lit("margin-top")); r.push(lit("margin-bottom")); }
    else if eq_str(p, "margin-inline-start") { r.push(lit("margin-left")); }
    else if eq_str(p, "margin-inline-end") { r.push(lit("margin-right")); }
    else if eq_str(p, "margin-block-start") { r.push(lit("margin-top")); }
    else if eq_str(p, "margin-block-end") { r.push(lit("margin-bottom")); }
    else if eq_str(p, "inset-inline") { r.push(lit("left")); r.push(lit("right")); }
    else if eq_str(p, "inset-block") { r.push(lit("top")); r.push(lit("bottom")); }
    else if eq_str(p, "border-inline") { r.push(lit("border-left")); r.push(lit("border-right")); }
    else if eq_str(p, "border-block") { r.push(lit("border-top")); r.push(lit("border-bottom")); }
    else if eq_str(p, "inline-size") { r.push(lit("width")); }
    else if eq_str(p, "block-size") { r.push(lit("height")); }
    else if eq_str(p, "min-inline-size") { r.push(lit("min-width")); }
    else if eq_str(p, "max-inline-size") { r.push(lit("max-width")); }
    else if eq_str(p, "min-block-size") { r.push(lit("min-height")); }
    else if eq_str(p, "max-block-size") { r.push(lit("max-height")); }
    else if eq_str(p, "gap") || eq_str(p, "row-gap") || eq_str(p, "column-gap") { }
    else { r.push(slice(p, 0, p.len())); assert(p@.subrange(0, p@.len() as int) == p@); }
    r
}

/// Appends the output declarations of one piece (see `spec_convert_decl`).
fn convert_decl(piece: &Vec<char>, out: &mut Vec<Vec<char>>)
    ensures
        final(out)@.len() == old(out)@.len() + spec_convert_decl(piece@).len(),
        forall|k: int| 0 <= k < old(out)@.len() ==> #[trigger] final(out)@[k] == old(out)@[k],
        forall|k: int| 0 <= k < spec_convert_decl(piece@).len()
            ==> #[trigger] final(out)@[old(out)@.len() + k]@ == spec_convert_decl(piece@)[k],
{
    let d = trimmed(piece);
    if d.len() == 0 {
        return;
    }
    proof {
        lemma_find_suffix(d@, seq![':'], 0);
        lemma_find_from_facts(d@, seq![':'], 0);
        assert(d@.subrange(0, d@.len() as int) == d@);
    }
    match find_char(&d, ':', 0) {
        None => {
            out.push(d);
        },
        Some(i) => {
            let p0 = slice(&d, 0, i);
            let p = trimmed(&p0);
            let v0 = slice(&d, i + 1, d.len());
            let v1 = trimmed(&v0);
            let v = convert_rem_to_px_chars(&v1);
            let props = physical(&p);
            let ghost o = out@;
            let ghost expected = spec_physical(p@).map_values(|q: Seq<char>| q + ": "@ + v@);
            for j in 0..props.len()
                invariant
                    props@.len() == spec_physical(p@).len(),
                    forall|k: int| 0 <= k < props@.len() ==> #[trigger] props@[k]@ == spec_physical(p@)[k],
                    expected == spec_physical(p@).map_values(|q: Seq<char>| q + ": "@ + v@),
                    out@.len() == o.len() + j,
                    forall|k: int| 0 <= k < o.len() ==> #[trigger] out@[k] == o[k],
                    forall|k: int| 0 <= k < j ==> #[trigger] out@[o.len() + k]@ == expected[k],
            {
                let mut line = slice(&props[j], 0, props[j].len());
                assert(props@[j as int]@.subrange(0, props@[j as int]@.len() as int) == props@[j as int]@);
                push_str(&mut line, ": ");
                push_all(&mut line, &v);
                out.push(line);
            }
        },
    }
}

/// Converts an inline style (see `spec_convert_style`).
pub fn convert_style_chars(style: &Vec<char>) -> (r: Vec<char>)
    ensures r@ == spec_convert_style(style@),
{
    let pieces = split_on(style, ';');
    let ghost ps = split_char(style@, ';');
    let mut decls: Vec<Vec<char>> = Vec::new();
    for i in 0..pieces.len()
        invariant
            pieces@.len() == ps.len(),
            forall|k: int| 0 <= k < pieces@.len() ==> #[trigger] pieces@[k]@ == ps[k],
            decls@.len() == spec_convert_decls(ps.take(i as int)).len(),
            forall|k: int| 0 <= k < decls@.len() ==> #[trigger] decls@[k]@ == spec_convert_decls(ps.take(i as int))[k],
    {
        let ghost before = decls@;
        convert_decl(&pieces[i], &mut decls);
        proof {
            assert(ps.take(i + 1).drop_last() == ps.take(i as int));
            assert(ps.take(i + 1).last() == ps[i as int]);
            let want = spec_convert_decls(ps.take(i + 1));
            assert(want == spec_convert_decls(ps.take(i as int)) + spec_convert_decl(ps[i as int]));
            assert forall|k: int| 0 <= k < decls@.len() implies #[trigger] decls@[k]@ == want[k] by {
                if k >= before.len() {
                    assert(decls@[before.len() + (k - before.len())]@ == spec_convert_decl(pieces@[i as int]@)[k - before.len()]);
                }
            }
        }
    }
    assert(ps.take(pieces.len() as int) == ps);
    let ghost dv = spec_convert_decls(ps);
    assert(decls@.map_values(|p: Vec<char>| p@) =~= dv);
    if decls.len() == 0 {
        Vec::new()
    } else {
        let mut r = join_with(&decls, "; ");
        push_str(&mut r, ";");
        r
    }
}

/// The end of the run of number characters starting at `i`.
fn scan_number(v: &Vec<char>, i: usize) -> (r: usize)
    requires i <= v.len(),
    ensures
        i <= r <= v.len(),
        number_end(v@.subrange(i as int, v.len() as int), 0) == r - i,
{
    let mut j = i;
    while j < v.len() && (is_ascii_digit(v[j]) || v[j] == '.' || v[j] == '-')
        invariant
            i <= j <= v.len(),
            number_end(v@.subrange(i as int, v.len() as int), 0)
                == number_end(v@.subrange(i as int, v.len() as int), (j - i) as int),
        decreases v.len() - j,
    {
        j = j + 1;
    }
    j
}

/// A number directly followed by `rem` at `v[i..]`: where the number ends and
/// where the unit ends (see `number_rem`).
pub fn try_parse_number_rem(v: &Vec<char>, i: usize) -> (r: Option<(usize, usize)>)
    requires i <= v.len(),
    ensures ({
        let s = v@.subrange(i as int, v.len() as int);
        match r {
            Some((n, e)) => number_rem(s) == Some(((n - i) as int, (e - i) as int)) && i <= n && n + 3 == e && e <= v.len(),
            None => number_rem(s) is None,
        }
    }),
{
    let n = scan_number(v, i);
    if n == i {
        return None;
    }
    if v.len() - n >= 3 && v[n] == 'r' && v[n + 1] == 'e' && v[n + 2] == 'm'
        && (n + 3 == v.len() || !(is_ascii_alphanumeric(v[n + 3]) || v[n + 3] == '-')) {
        Some((n, n + 3))
    } else {
        None
    }
}

/// The digit values of `v[a..b]`.
fn digits_of(v: &Vec<char>, a: usize, b: usize) -> (r: Vec<u8>)
    requires
        a <= b <= v.len(),
        forall|t: int| a <= t < b ==> is_digit(#[trigger] v@[t]),
    ensures
        r@ == v@.subrange(a as int, b as int).map_values(|c: char| digit_of(c)),
        is_digits(r@),
{
    let mut r: Vec<u8> = Vec::new();
    let mut i = a;
    while i < b
        invariant
            a <= i <= b <= v.len(),
            forall|t: int| a <= t < b ==> is_digit(#[trigger] v@[t]),
            r@ == v@.subrange(a as int, i as int).map_values(|c: char| digit_of(c)),
            is_digits(r@),
        decreases b - i,
    {
        let c = v[i];
        assert(is_digit(v@[i as int]));
        r.push(((c as u32) - 48) as u8);
        assert(v@.subrange(a as int, i + 1) == v@.subrange(a as int, i as int).push(c));
        i = i + 1;
    }
    r
}

/// Whether `num` is a decimal literal (see `valid_decimal`), and its digits and
/// fraction length (see `decimal_parts`).
fn parse_decimal(num: &Vec<char>) -> (r: Option<(Vec<u8>, usize)>)
    requires forall|i: int| 0 <= i < num@.len() ==> is_number_char(#[trigger] num@[i]),
    ensures
        r is Some <==> valid_decimal(num@),
        r matches Some((d, k)) ==> decimal_parts(num@) == (d@, k as nat) && is_digits(d@) && k <= d@.len(),
{
    let start: usize = if num.len() > 0 && num[0] == '-' { 1 } else { 0 };
    let ghost body = number_body(num@);
    assert(body =~= num@.subrange(start as int, num@.len() as int));
    proof {
        lemma_find_from_facts(num@, seq!['-'], start as int);
        lemma_find_from_facts(num@, seq!['.'], start as int);
        lemma_find_suffix(num@, seq!['.'], start as int);
    }
    if find_char(num, '-', start).is_some() {
        proof {
            let k = find_from(num@, seq!['-'], start as int).unwrap();
            assert(num@.subrange(k, k + 1)[0] == num@[k]);
            assert(body[k - start] == '-');
            assert(!is_digit(body[k - start]));
            assert(!valid_decimal(num@));
        }
        return None;
    }
    assert forall|t: int| start <= t < num@.len() implies num@[t] != '-' by {
        if num@[t] == '-' {
            assert(num@.subrange(t, t + 1) =~= seq!['-']);
            assert(matches_at(num@, t, seq!['-']));
        }
    }
    let dot = find_char(num, '.', start);
    let (ie, fs) = match dot {
        Some(p) => {
            proof {
                lemma_find_from_facts(num@, seq!['.'], p + 1);
                assert(num@.subrange(p as int, p + 1)[0] == num@[p as int]);
            }
            if find_char(num, '.', p + 1).is_some() {
                proof {
                    let q = find_from(num@, seq!['.'], p + 1).unwrap();
                    assert(num@.subrange(q, q + 1)[0] == num@[q]);
                    assert(body[p - start] == '.' && body[q - start] == '.');
                }
                return None;
            }
            (p, p + 1)
        },
        None => (num.len(), num.len()),
    };
    proof {
        assert forall|t: int| start <= t < num@.len() && t != ie implies num@[t] != '.' by {
            if num@[t] == '.' {
                assert(num@.subrange(t, t + 1) =~= seq!['.']);
                assert(matches_at(num@, t, seq!['.']));
            }
        }
        assert forall|t: int| start <= t < num@.len() && t != ie implies is_digit(#[trigger] num@[t]) by {
            assert(is_number_char(num@[t]));
        }
    }
    if ie == start && fs == num.len() {
        proof {
            assert forall|t: int| 0 <= t < body.len() implies !is_digit(#[trigger] body[t]) by {
                assert(body[t] == num@[start + t]);
            }
        }
        return None;
    }
    let mut d = digits_of(num, start, ie);
    let f = digits_of(num, fs, num.len());
    let ghost dv = d@;
    let mut j: usize = 0;
    while j < f.len()
        invariant
            j <= f.len(),
            d@ == dv + f@.subrange(0, j as int),
            is_digits(dv),
            is_digits(f@),
        decreases f.len() - j,
    {
        d.push(f[j]);
        assert(f@.subrange(0, j + 1) == f@.subrange(0, j as int).push(f@[j as int]));
        j = j + 1;
    }
    assert(f@.subrange(0, f.len() as int) == f@);
    let k = num.len() - fs;
    proof {
        assert(is_digits(d@)) by {
            assert forall|t: int| 0 <= t < d@.len() implies #[trigger] d@[t] < 10 by {
                if t >= dv.len() {
                    assert(d@[t] == f@[t - dv.len()]);
                }
            }
        }
        match dot {
            Some(p) => {
                assert(find(body, seq!['.']) == Some(p - start));
                assert(body.subrange(0, p - start) == num@.subrange(start as int, p as int));
                assert(body.subrange(p - start + 1, body.len() as int) == num@.subrange(p + 1, num@.len() as int));
                assert(body[p - start] == '.');
            },
            None => {
                assert(find(body, seq!['.']) is None);
            },
        }
        if ie < num.len() {
            assert(body[ie - start] == '.');
        }
        assert forall|i: int| 0 <= i < body.len() implies (is_digit(#[trigger] body[i]) || body[i] == '.') by {
            assert(body[i] == num@[start + i]);
        }
        assert forall|i: int, j: int| 0 <= i < j < body.len() && body[i] == '.' implies body[j] != '.' by {
            assert(body[i] == num@[start + i]);
            assert(body[j] == num@[start + j]);
        }
        if ie > start {
            assert(body[0] == num@[start as int]);
            assert(is_digit(body[0]));
        } else {
            assert(body[fs - start] == num@[fs as int]);
            assert(is_digit(body[fs - start]));
        }
        assert(valid_decimal(num@));
    }
    Some((d, k))
}

/// The first position in `d[a..b]` holding a non-zero digit, or `b`.
fn first_nonzero(d: &Vec<u8>, a: usize, b: usize) -> (r: usize)
    requires a <= b <= d.len(),
    ensures
        a <= r <= b,
        forall|t: int| a <= t < r ==> #[trigger] d@[t] == 0,
        r < b ==> d@[r as int] != 0,
{
    let mut j = a;
    while j < b && d[j] == 0
        invariant
            a <= j <= b <= d.len(),
            forall|t: int| a <= t < j ==> #[trigger] d@[t] == 0,
        decreases b - j,
    {
        j = j + 1;
    }
    j
}

proof fn lemma_strip_leading(d: Seq<u8>, j: int)
    requires
        0 <= j <= d.len(),
        forall|t: int| 0 <= t < j ==> #[trigger] d[t] == 0,
        j < d.len() ==> d[j] != 0,
    ensures
        strip_leading_zeros(d) == if j == d.len() { seq![0u8] } else { d.subrange(j, d.len() as int) },
    decreases j,
{
    if d.len() == 0 {
    } else if j == 0 {
        assert(d.subrange(0, d.len() as int) == d);
    } else if d.len() == 1 {
    } else {
        let e = d.drop_first();
        lemma_strip_leading(e, j - 1);
        if j < d.len() {
            assert(e.subrange(j - 1, e.len() as int) == d.subrange(j, d.len() as int));
        }
    }
}

proof fn lemma_strip_trailing(d: Seq<u8>, j: int)
    requires
        0 <= j <= d.len(),
        forall|t: int| j <= t < d.len() ==> #[trigger] d[t] == 0,
        j > 0 ==> d[j - 1] != 0,
    ensures strip_trailing_zeros(d) == d.subrange(0, j),
    decreases d.len() - j,
{
    if j == d.len() {
        assert(d.subrange(0, j) == d);
    } else {
        let e = d.drop_last();
        lemma_strip_trailing(e, j);
        assert(e.subrange(0, j) == d.subrange(0, j));
    }
}

/// Appends the characters of the digits `d[a..b]`.
fn push_digits(out: &mut Vec<char>, d: &Vec<u8>, a: usize, b: usize)
    requires
        a <= b <= d.len(),
        is_digits(d@),
    ensures final(out)@ == old(out)@ + digit_text(d@.subrange(a as int, b as int)),
{
    let ghost o = out@;
    let mut i = a;
    while i < b
        invariant
            a <= i <= b <= d.len(),
            is_digits(d@),
            out@ == o + digit_text(d@.subrange(a as int, i as int)),
        decreases b - i,
    {
        let x = d[i];
        assert(x < 10);
        out.push((x + 48) as char);
        assert(d@.subrange(a as int, i + 1) == d@.subrange(a as int, i as int).push(x));
        i = i + 1;
    }
}

/// Appends `digit_text(strip_leading_zeros(m[..split]))`; tells whether that part is all zeros.
fn push_int_part(out: &mut Vec<char>, m: &Vec<u8>, split: usize) -> (zero: bool)
    requires
        split <= m.len(),
        is_digits(m@),
    ensures
        final(out)@ == old(out)@ + digit_text(strip_leading_zeros(m@.subrange(0, split as int))),
        zero == all_zero(m@.subrange(0, split as int)),
{
    let ghost int_part = m@.subrange(0, split as int);
    let nz = first_nonzero(m, 0, split);
    proof {
        lemma_strip_leading(int_part, nz as int);
        if nz < split {
            assert(int_part.subrange(nz as int, split as int) == m@.subrange(nz as int, split as int));
            assert(int_part[nz as int] == m@[nz as int]);
        }
    }
    if nz == split {
        out.push('0');
        assert(digit_text(seq![0u8]) =~= seq!['0']);
        true
    } else {
        push_digits(out, m, nz, split);
        false
    }
}

/// The end of `m[split..]` once its trailing zeros are dropped.
fn frac_end(m: &Vec<u8>, split: usize) -> (e: usize)
    requires split <= m.len(),
    ensures
        split <= e <= m.len(),
        strip_trailing_zeros(m@.subrange(split as int, m@.len() as int)) == m@.subrange(split as int, e as int),
        all_zero(m@.subrange(split as int, m@.len() as int)) == (e == split),
{
    let ghost frac = m@.subrange(split as int, m@.len() as int);
    let mut e = m.len();
    while e > split && m[e - 1] == 0
        invariant
            split <= e <= m.len(),
            forall|t: int| e <= t < m@.len() ==> #[trigger] m@[t] == 0,
        decreases e,
    {
        e = e - 1;
    }
    proof {
        lemma_strip_trailing(frac, e - split);
        assert(frac.subrange(0, e - split) == m@.subrange(split as int, e as int));
        if e > split {
            assert(frac[e - split - 1] == m@[e - 1]);
        }
    }
    e
}

/// The pixel text of a rem number (see `spec_px_text`), or none when `num`
/// is not a decimal literal.
pub fn px_text(num: &Vec<char>) -> (r: Option<Vec<char>>)
    requires forall|i: int| 0 <= i < num@.len() ==> is_number_char(#[trigger] num@[i]),
    ensures
        r is Some <==> valid_decimal(num@),
        r matches Some(t) ==> t@ == spec_px_text(num@),
{
    let (d, k) = match parse_decimal(num) {
        Some(x) => x,
        None => return None,
    };
    let neg = num.len() > 0 && num[0] == '-';
    let m = times16_exec(&d);
    proof { lemma_times16(d@); }
    let split = m.len() - k;
    let e = frac_end(&m, split);
    let mut digits: Vec<char> = Vec::new();
    let int_zero = push_int_part(&mut digits, &m, split);
    let mut out: Vec<char> = Vec::new();
    if e == split {
        if neg && !int_zero {
            out.push('-');
        }
        push_all(&mut out, &digits);
    } else {
        if neg {
            out.push('-');
        }
        push_all(&mut out, &digits);
        out.push('.');
        push_digits(&mut out, &m, split, e);
    }
    assert(seq!['-'] + seq![] =~= seq!['-']);
    assert(Seq::<char>::empty() + digits@ =~= digits@);
    Some(out)
}

proof fn lemma_number_end(s: Seq<char>, i: int)
    requires 0 <= i <= s.len(),
    ensures
        i <= number_end(s, i) <= s.len(),
        forall|t: int| i <= t < number_end(s, i) ==> is_number_char(#[trigger] s[t]),
    decreases s.len() - i,
{
    if i < s.len() && is_number_char(s[i]) {
        lemma_number_end(s, i + 1);
    }
}

/// Rewrites every number followed by `rem` as pixels (see `spec_rem_to_px`).
pub fn convert_rem_to_px_chars(v: &Vec<char>) -> (r: Vec<char>)
    ensures r@ == spec_rem_to_px(v@),
{
    let mut out: Vec<char> = Vec::new();
    let mut i: usize = 0;
    assert(v@.subrange(0, v@.len() as int) == v@);
    while i < v.len()
        invariant
            i <= v.len(),
            out@ + spec_rem_to_px(v@.subrange(i as int, v@.len() as int)) == spec_rem_to_px(v@),
        decreases v.len() - i,
    {
        let ghost s = v@.subrange(i as int, v@.len() as int);
        proof { assert(s.drop_first() == v@.subrange(i + 1, v@.len() as int)); }
        if let Some((n, e)) = try_parse_number_rem(v, i) {
            let num = slice(v, i, n);
            proof {
                lemma_number_end(s, 0);
                assert(num@ == s.subrange(0, (n - i) as int));
                assert forall|t: int| 0 <= t < num@.len() implies is_number_char(#[trigger] num@[t]) by {
                    assert(num@[t] == s[t]);
                }
            }
            if let Some(t) = px_text(&num) {
                proof {
                    assert(s.subrange((e - i) as int, s.len() as int) == v@.subrange(e as int, v@.len() as int));
                }
                push_all(&mut out, &t);
                push_str(&mut out, "px");
                i = e;
                continue;
            }
        }
        out.push(v[i]);
        i = i + 1;
    }
    assert(v@.subrange(i as int, v@.len() as int) =~= Seq::<char>::empty());
    out
}

/// Rewrites the declarations of a style text (see `spec_convert_style`).
pub fn convert_style(style: &str) -> (r: String)
    ensures r@ == spec_convert_style(style@),
{
    let v = chars_of(style);
    string_of(convert_style_chars(&v).as_slice())
}

/// Writes every `rem` number of a value in `px` (see `spec_rem_to_px`).
pub fn convert_rem_to_px(value: &str) -> (r: String)
    ensures r@ == spec_rem_to_px(value@),
{
    let v = chars_of(value);
    string_of(convert_rem_to_px_chars(&v).as_slice())
}

} // verus!
