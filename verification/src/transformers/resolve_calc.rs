//! Evaluation of `calc()` expressions to constants.
//!
//! An expression of numbers with units, `+ - * /` and parentheses is reduced
//! to one value when the units agree: a sum or difference needs one unit (or a
//! unitless side), a product one unitless side, a quotient a unitless
//! divisor; a nested `calc(` counts as a parenthesis. Arithmetic is
//! exact, on fractions kept in lowest terms; the result is written as an
//! integer when it is one (and smaller than 10^15 in magnitude), else rounded
//! to three decimals, halves away from zero. An expression that cannot be
//! evaluated (mixed units, a division by zero, a syntax the evaluator does not
//! know, or a fraction whose numerator or denominator would pass 10^18) is
//! left as it was.
use vstd::prelude::*;
use crate::error::Error;
use crate::html::{attr_get, attr_set, element_attrs, element_tag, get_attribute, set_attribute, HtmlElement};
use crate::html::{chunk_replacement, chunk_string, chunk_text, replace_chunk};
use crate::rewrite::{rewrite, rewrite_outcome, HtmlRule, RewriteLog, RuleView};
use crate::text::{
    chars_of, close_index, find, find_in, matches_at, is_alpha, is_ascii_alphabetic, is_ascii_digit, is_digit, is_whitespace,
    is_ws, lemma_close_index, lemma_find_from_facts, lemma_find_suffix, lit, matching_close, push_all, push_range,
    push_str, same, slice, string_of, trim, trimmed,
};
use lol_html::errors::AttributeNameError;
use lol_html::html_content::TextChunk;
use crate::transformers::email_compat_css::{digit_char, pow10};
use vstd::arithmetic::div_mod::{lemma_fundamental_div_mod, lemma_mod_multiples_basic, lemma_mod_self_0, lemma_small_mod};

verus! {

broadcast use vstd::string::group_string_axioms;

// ───────────────────────────── fractions ─────────────────────────────

/// The largest numerator (in magnitude) and denominator a value may have.
pub const LIMIT: i128 = 1_000_000_000_000_000_000;

pub open spec fn abs(x: int) -> int {
    if x < 0 { -x } else { x }
}

/// Greatest common divisor, by Euclid's algorithm.
pub open spec fn gcd(a: nat, b: nat) -> nat
    decreases b,
{
    if b == 0 { a } else { gcd(b, a % b) }
}

proof fn lemma_gcd_bounds(a: nat, b: nat)
    requires b > 0,
    ensures 0 < gcd(a, b) <= b,
    decreases b,
{
    if a % b > 0 {
        lemma_gcd_bounds(b, a % b);
    } else {
        assert(gcd(b, 0) == b);
    }
}

/// The fraction `n / d` (with `d > 0`) divided through by the gcd of its terms.
pub open spec fn reduce(n: int, d: int) -> (int, int) {
    let g = gcd(abs(n) as nat, d as nat) as int;
    (if n < 0 { -(abs(n) / g) } else { n / g }, d / g)
}

/// Numerator and denominator within the limits the evaluator keeps to.
pub open spec fn bounded(q: (int, int)) -> bool {
    -LIMIT <= q.0 <= LIMIT && 1 <= q.1 <= LIMIT
}

pub open spec fn checked(q: (int, int)) -> Option<(int, int)> {
    if bounded(q) { Some(q) } else { None }
}

/// `a op b` on fractions, reduced; none for a division by zero, an unknown
/// operator or a result past the limits.
pub open spec fn q_arith(a: (int, int), b: (int, int), op: char) -> Option<(int, int)> {
    if op == '+' {
        checked(reduce(a.0 * b.1 + b.0 * a.1, a.1 * b.1))
    } else if op == '-' {
        checked(reduce(a.0 * b.1 - b.0 * a.1, a.1 * b.1))
    } else if op == '*' {
        checked(reduce(a.0 * b.0, a.1 * b.1))
    } else if op == '/' {
        if b.0 == 0 {
            None
        } else if b.0 > 0 {
            checked(reduce(a.0 * b.1, a.1 * b.0))
        } else {
            checked(reduce(-(a.0 * b.1), a.1 * (-b.0)))
        }
    } else {
        None
    }
}

fn gcd_exec(a: u128, b: u128) -> (g: u128)
    ensures g == gcd(a as nat, b as nat),
{
    let mut x = a;
    let mut y = b;
    while y != 0
        invariant gcd(x as nat, y as nat) == gcd(a as nat, b as nat),
        decreases y,
    {
        let t = x % y;
        x = y;
        y = t;
    }
    x
}

/// `reduce`, for terms below 10^37.
fn reduce_exec(n: i128, d: i128) -> (r: (i128, i128))
    requires
        -10_000_000_000_000_000_000_000_000_000_000_000_000 <= n <= 10_000_000_000_000_000_000_000_000_000_000_000_000,
        1 <= d <= 10_000_000_000_000_000_000_000_000_000_000_000_000,
    ensures
        (r.0 as int, r.1 as int) == reduce(n as int, d as int),
{
    let a: u128 = if n < 0 { (-n) as u128 } else { n as u128 };
    assert(a as int == abs(n as int));
    let g = gcd_exec(a, d as u128);
    proof { lemma_gcd_bounds(a as nat, d as nat); }
    let na = a / g;
    let nd = (d as u128) / g;
    assert(na <= a) by (nonlinear_arith)
        requires na == a / g, g >= 1;
    assert(nd <= d) by (nonlinear_arith)
        requires nd == (d as u128) / g, g >= 1, d >= 1;
    let rn: i128 = if n < 0 { -(na as i128) } else { na as i128 };
    (rn, nd as i128)
}

proof fn lemma_mul_bound(x: int, y: int)
    requires
        -LIMIT <= x <= LIMIT,
        -LIMIT <= y <= LIMIT,
    ensures
        -(LIMIT * LIMIT) <= x * y <= LIMIT * LIMIT,
{
    assert(-(LIMIT * LIMIT) <= x * y <= LIMIT * LIMIT) by (nonlinear_arith)
        requires -LIMIT <= x <= LIMIT, -LIMIT <= y <= LIMIT, LIMIT > 0;
}

/// `q_arith` on bounded fractions.
fn q_arith_exec(a: (i128, i128), b: (i128, i128), op: char) -> (r: Option<(i128, i128)>)
    requires
        bounded((a.0 as int, a.1 as int)),
        bounded((b.0 as int, b.1 as int)),
    ensures
        r matches Some(q) ==> q_arith((a.0 as int, a.1 as int), (b.0 as int, b.1 as int), op) == Some((q.0 as int, q.1 as int)),
        r is None ==> q_arith((a.0 as int, a.1 as int), (b.0 as int, b.1 as int), op) is None,
{
    proof {
        lemma_mul_bound(a.0 as int, b.1 as int);
        lemma_mul_bound(b.0 as int, a.1 as int);
        lemma_mul_bound(a.0 as int, b.0 as int);
        lemma_mul_bound(a.1 as int, b.1 as int);
        lemma_mul_bound(a.1 as int, b.0 as int);
        assert(1 <= a.1 * b.1) by (nonlinear_arith)
            requires 1 <= a.1, 1 <= b.1;
    }
    let q = if op == '+' {
        reduce_exec(a.0 * b.1 + b.0 * a.1, a.1 * b.1)
    } else if op == '-' {
        reduce_exec(a.0 * b.1 - b.0 * a.1, a.1 * b.1)
    } else if op == '*' {
        reduce_exec(a.0 * b.0, a.1 * b.1)
    } else if op == '/' {
        if b.0 == 0 {
            return None;
        } else if b.0 > 0 {
            assert(1 <= a.1 * b.0) by (nonlinear_arith)
                requires 1 <= a.1, 1 <= b.0;
            reduce_exec(a.0 * b.1, a.1 * b.0)
        } else {
            proof { lemma_mul_bound(a.1 as int, -b.0); }
            assert(1 <= a.1 * (-b.0)) by (nonlinear_arith)
                requires 1 <= a.1, 1 <= -b.0;
            reduce_exec(-(a.0 * b.1), a.1 * (-b.0))
        }
    } else {
        return None;
    };
    if -LIMIT <= q.0 && q.0 <= LIMIT && 1 <= q.1 && q.1 <= LIMIT {
        Some(q)
    } else {
        None
    }
}

// ───────────────────────────── exactness ─────────────────────────────

proof fn lemma_gcd_divides(a: nat, b: nat)
    requires
        a > 0 || b > 0,
    ensures
        gcd(a, b) > 0,
        (a as int) % (gcd(a, b) as int) == 0,
        (b as int) % (gcd(a, b) as int) == 0,
    decreases b,
{
    if b == 0 {
        lemma_mod_self_0(a as int);
        lemma_small_mod(0, a);
    } else {
        let r = a % b;
        lemma_gcd_divides(b, r);
        let g = gcd(b, r) as int;
        let (ai, bi, ri) = (a as int, b as int, r as int);
        lemma_fundamental_div_mod(ai, bi);
        lemma_fundamental_div_mod(bi, g);
        lemma_fundamental_div_mod(ri, g);
        let k = (bi / g) * (ai / bi) + ri / g;
        assert(ai == k * g) by (nonlinear_arith)
            requires
                ai == bi * (ai / bi) + ri,
                bi == g * (bi / g) + 0,
                ri == g * (ri / g) + 0,
                k == (bi / g) * (ai / bi) + ri / g;
        lemma_mod_multiples_basic(k, g);
    }
}

/// Reducing a fraction keeps its value and a positive denominator.
pub proof fn lemma_reduce_keeps_value(n: int, d: int)
    requires
        d > 0,
    ensures
        reduce(n, d).1 > 0,
        reduce(n, d).0 * d == n * reduce(n, d).1,
{
    let a = abs(n);
    lemma_gcd_divides(a as nat, d as nat);
    let g = gcd(a as nat, d as nat) as int;
    lemma_fundamental_div_mod(a, g);
    lemma_fundamental_div_mod(d, g);
    let (p, q) = (a / g, d / g);
    assert(q > 0) by (nonlinear_arith)
        requires d == g * q + 0, d > 0, g > 0;
    if n < 0 {
        assert((-p) * d == n * q) by (nonlinear_arith)
            requires a == g * p + 0, d == g * q + 0, a == -n;
    } else {
        assert(p * d == n * q) by (nonlinear_arith)
            requires a == g * p + 0, d == g * q + 0, a == n;
    }
}

/// The evaluator's arithmetic is exact: whenever an operation on two fractions
/// `a.0/a.1` and `b.0/b.1` gives a result, that result is the exact sum,
/// difference, product or quotient, with a positive denominator.
pub proof fn lemma_q_arith_exact(a: (int, int), b: (int, int), op: char)
    requires
        a.1 > 0,
        b.1 > 0,
        q_arith(a, b, op) is Some,
    ensures
        ({
            let r = q_arith(a, b, op)->0;
            &&& r.1 > 0
            &&& op == '+' ==> r.0 * (a.1 * b.1) == (a.0 * b.1 + b.0 * a.1) * r.1
            &&& op == '-' ==> r.0 * (a.1 * b.1) == (a.0 * b.1 - b.0 * a.1) * r.1
            &&& op == '*' ==> r.0 * (a.1 * b.1) == (a.0 * b.0) * r.1
            &&& op == '/' ==> r.0 * (a.1 * b.0) == (a.0 * b.1) * r.1
        }),
{
    assert(a.1 * b.1 > 0) by (nonlinear_arith) requires a.1 > 0, b.1 > 0;
    if op == '+' {
        lemma_reduce_keeps_value(a.0 * b.1 + b.0 * a.1, a.1 * b.1);
    } else if op == '-' {
        lemma_reduce_keeps_value(a.0 * b.1 - b.0 * a.1, a.1 * b.1);
    } else if op == '*' {
        lemma_reduce_keeps_value(a.0 * b.0, a.1 * b.1);
    } else if op == '/' {
        if b.0 > 0 {
            assert(a.1 * b.0 > 0) by (nonlinear_arith) requires a.1 > 0, b.0 > 0;
            lemma_reduce_keeps_value(a.0 * b.1, a.1 * b.0);
        } else {
            assert(a.1 * (-b.0) > 0) by (nonlinear_arith) requires a.1 > 0, b.0 < 0;
            lemma_reduce_keeps_value(-(a.0 * b.1), a.1 * (-b.0));
            let r = q_arith(a, b, op)->0;
            assert(r.0 * (a.1 * b.0) == (a.0 * b.1) * r.1) by (nonlinear_arith)
                requires r.0 * (a.1 * (-b.0)) == (-(a.0 * b.1)) * r.1;
        }
    }
}

// ───────────────────────────── writing values ─────────────────────────────

/// Decimal digits of a natural number.
pub open spec fn nat_text(n: nat) -> Seq<char>
    decreases n,
{
    if n < 10 {
        seq![digit_char(n as u8)]
    } else {
        nat_text(n / 10).push(digit_char((n % 10) as u8))
    }
}

/// The decimals of a thousandth count `1..=999`, without trailing zeros.
pub open spec fn frac_text(f: nat) -> Seq<char> {
    let a = digit_char((f / 100) as u8);
    let b = digit_char(((f / 10) % 10) as u8);
    let c = digit_char((f % 10) as u8);
    if f % 10 != 0 {
        seq![a, b, c]
    } else if (f / 10) % 10 != 0 {
        seq![a, b]
    } else {
        seq![a]
    }
}

/// `x / d` rounded to an integer, halves away from zero (`d > 0`).
pub open spec fn round_half_away(x: int, d: int) -> int {
    if x >= 0 { (2 * x + d) / (2 * d) } else { -((2 * (-x) + d) / (2 * d)) }
}

/// How a value `n / d` (reduced) with a unit is written: an integer below
/// 10^15 in magnitude as it is; anything else rounded to thousandths, with
/// trailing zeros dropped. A negative value keeps its sign, even when it
/// rounds to zero.
pub open spec fn format_quantity(n: int, d: int, unit: Seq<char>) -> Seq<char> {
    let sign: Seq<char> = if n < 0 { seq!['-'] } else { seq![] };
    if d == 1 && -1_000_000_000_000_000 < n < 1_000_000_000_000_000 {
        sign + nat_text(abs(n) as nat) + unit
    } else {
        let m = abs(round_half_away(n * 1000, d));
        let frac: Seq<char> = if m % 1000 == 0 { seq![] } else { seq!['.'] + frac_text((m % 1000) as nat) };
        sign + nat_text((m / 1000) as nat) + frac + unit
    }
}

fn push_nat(out: &mut Vec<char>, n: u128)
    ensures final(out)@ == old(out)@ + nat_text(n as nat),
    decreases n,
{
    if n >= 10 {
        push_nat(out, n / 10);
    }
    let d = (n % 10) as u8;
    out.push((d + 48) as char);
    assert(n < 10 ==> n % 10 == n);
}

/// Writes a bounded value with its unit (see `format_quantity`).
fn format_value(n: i128, d: i128, unit: &Vec<char>) -> (r: Vec<char>)
    requires bounded((n as int, d as int)),
    ensures r@ == format_quantity(n as int, d as int, unit@),
{
    let mut out: Vec<char> = Vec::new();
    if n < 0 {
        out.push('-');
    }
    let ghost sign: Seq<char> = if n < 0 { seq!['-'] } else { seq![] };
    assert(out@ == sign);
    if d == 1 && -1_000_000_000_000_000 < n && n < 1_000_000_000_000_000 {
        let a: u128 = if n < 0 { (-n) as u128 } else { n as u128 };
        push_nat(&mut out, a);
    } else {
        let x = n * 1000;
        let rounded: i128 = if x >= 0 { (2 * x + d) / (2 * d) } else { -((2 * (-x) + d) / (2 * d)) };
        assert(rounded == round_half_away(n * 1000, d as int));
        let m: u128 = if rounded < 0 { (-rounded) as u128 } else { rounded as u128 };
        push_nat(&mut out, m / 1000);
        let f = m % 1000;
        if f != 0 {
            out.push('.');
            out.push((((f / 100) as u8) + 48) as char);
            if f % 10 != 0 {
                out.push(((((f / 10) % 10) as u8) + 48) as char);
                out.push((((f % 10) as u8) + 48) as char);
            } else if (f / 10) % 10 != 0 {
                out.push(((((f / 10) % 10) as u8) + 48) as char);
            }
        }
        let ghost frac: Seq<char> = if m % 1000 == 0 { seq![] } else { seq!['.'] + frac_text((m % 1000) as nat) };
        assert(out@ =~= sign + nat_text((m / 1000) as nat) + frac);
    }
    let ghost o = out@;
    crate::text::push_all(&mut out, unit);
    out
}

// ───────────────────────────── tokens ─────────────────────────────

/// A number with its unit (letters or `%`, possibly none), as a reduced fraction.
#[derive(Debug, Clone)]
pub struct Quantity {
    pub num: i128,
    pub den: i128,
    pub unit: Vec<char>,
}

pub struct QuantityView {
    pub num: int,
    pub den: int,
    pub unit: Seq<char>,
}

impl View for Quantity {
    type V = QuantityView;

    open spec fn view(&self) -> QuantityView {
        QuantityView { num: self.num as int, den: self.den as int, unit: self.unit@ }
    }
}

pub open spec fn qv_bounded(q: QuantityView) -> bool {
    bounded((q.num, q.den))
}

/// A token of a `calc()` body.
#[derive(Debug, Clone)]
pub enum Token {
    Value(Quantity),
    Op(char),
    Open,
    Close,
}

pub enum TokenView {
    Value(QuantityView),
    Op(char),
    Open,
    Close,
}

impl View for Token {
    type V = TokenView;

    open spec fn view(&self) -> TokenView {
        match self {
            Token::Value(q) => TokenView::Value(q@),
            Token::Op(c) => TokenView::Op(*c),
            Token::Open => TokenView::Open,
            Token::Close => TokenView::Close,
        }
    }
}

pub open spec fn toks_view(t: Seq<Token>) -> Seq<TokenView> {
    t.map_values(|x: Token| x@)
}

/// Every value token is within the limits.
pub open spec fn all_bounded(t: Seq<TokenView>) -> bool {
    forall|i: int| 0 <= i < t.len() ==> (#[trigger] t[i] matches TokenView::Value(q) ==> qv_bounded(q))
}

fn copy_quantity(q: &Quantity) -> (r: Quantity)
    ensures r@ == q@,
{
    assert(q.unit@.subrange(0, q.unit@.len() as int) == q.unit@);
    Quantity { num: q.num, den: q.den, unit: slice(&q.unit, 0, q.unit.len()) }
}

// ───────────────────────────── numbers ─────────────────────────────

/// Reading the digits and points of `b` from the left: the digits taken as one
/// integer, how many digits, how many points, and how many digits come after
/// the first point.
pub open spec fn read_number(b: Seq<char>) -> (nat, nat, nat, nat)
    decreases b.len(),
{
    if b.len() == 0 {
        (0, 0, 0, 0)
    } else {
        let (v, nd, np, fr) = read_number(b.drop_last());
        let c = b.last();
        if c == '.' {
            (v, nd, np + 1, fr)
        } else if is_digit(c) {
            (v * 10 + ((c as nat) - 48) as nat, nd + 1, np, if np > 0 { fr + 1 } else { fr })
        } else {
            (v, nd, np, fr)
        }
    }
}

/// A number as `f64::from_str` reads a sign followed by digits and points: at
/// least one digit and at most one point. Its value, reduced; none when it is
/// malformed, has more than 36 characters after the sign, or passes the limits.
pub open spec fn parse_number(s: Seq<char>) -> Option<(int, int)> {
    let signed = s.len() > 0 && (s[0] == '+' || s[0] == '-');
    let body = if signed { s.drop_first() } else { s };
    let (v, nd, np, fr) = read_number(body);
    if body.len() > 36 || np > 1 || nd == 0 {
        None
    } else {
        checked(reduce(if s.len() > 0 && s[0] == '-' { -(v as int) } else { v as int }, pow10(fr) as int))
    }
}

proof fn lemma_pow10_mono(a: nat, b: nat)
    requires a <= b,
    ensures 1 <= pow10(a) <= pow10(b),
    decreases b,
{
    if b > 0 {
        if a == b {
            lemma_pow10_mono((a - 1) as nat, (b - 1) as nat);
        } else {
            lemma_pow10_mono(a, (b - 1) as nat);
        }
    }
}

/// `parse_number` of `v[a..b]`.
fn parse_number_exec(v: &Vec<char>, a: usize, b: usize) -> (r: Option<(i128, i128)>)
    requires a <= b <= v.len(),
    ensures
        r matches Some(q) ==> parse_number(v@.subrange(a as int, b as int)) == Some((q.0 as int, q.1 as int)),
        r is None ==> parse_number(v@.subrange(a as int, b as int)) is None,
{
    let ghost s = v@.subrange(a as int, b as int);
    let signed = a < b && (v[a] == '+' || v[a] == '-');
    let negative = a < b && v[a] == '-';
    let start = if signed { a + 1 } else { a };
    let ghost body = v@.subrange(start as int, b as int);
    assert(body == (if signed { s.drop_first() } else { s }));
    if b - start > 36 {
        return None;
    }
    assert(pow10(36) == 1_000_000_000_000_000_000_000_000_000_000_000_000) by {
        reveal_with_fuel(pow10, 37);
    }
    let mut val: i128 = 0;
    let mut nd: usize = 0;
    let mut np: usize = 0;
    let mut fr: usize = 0;
    let mut den: i128 = 1;
    let mut i = start;
    while i < b
        invariant
            start <= i <= b <= v.len(),
            b - start <= 36,
            body == v@.subrange(start as int, b as int),
            pow10(36) == 1_000_000_000_000_000_000_000_000_000_000_000_000,
            read_number(body.take(i - start)) == (val as nat, nd as nat, np as nat, fr as nat),
            nd <= i - start,
            np <= i - start,
            fr <= nd,
            0 <= val < pow10(nd as nat),
            den == pow10(fr as nat),
        decreases b - i,
    {
        proof {
            assert(body.take(i + 1 - start).drop_last() == body.take(i - start));
            assert(body.take(i + 1 - start).last() == v@[i as int]);
            lemma_pow10_mono(nd as nat, 36);
            lemma_pow10_mono(fr as nat, 36);
        }
        let c = v[i];
        if c == '.' {
            np = np + 1;
        } else if is_ascii_digit(c) {
            val = val * 10 + ((c as u32 - 48) as i128);
            nd = nd + 1;
            if np > 0 {
                den = den * 10;
                fr = fr + 1;
            }
        }
        i = i + 1;
    }
    assert(body.take(b - start) == body);
    if np > 1 || nd == 0 {
        return None;
    }
    proof {
        lemma_pow10_mono(fr as nat, 36);
        lemma_pow10_mono(nd as nat, 36);
    }
    let n = if negative { -val } else { val };
    let q = reduce_exec(n, den);
    if -LIMIT <= q.0 && q.0 <= LIMIT && 1 <= q.1 && q.1 <= LIMIT {
        Some(q)
    } else {
        None
    }
}

// ───────────────────────────── tokenizing ─────────────────────────────

pub open spec fn num_char(c: char) -> bool {
    is_digit(c) || c == '.'
}

pub open spec fn unit_char(c: char) -> bool {
    is_alpha(c) || c == '%'
}

/// The end of the run of number characters (or, with `units`, unit
/// characters) that starts at `i`.
pub open spec fn run_end(s: Seq<char>, i: int, units: bool) -> int
    decreases s.len() - i,
{
    if 0 <= i < s.len() && (if units { unit_char(s[i]) } else { num_char(s[i]) }) {
        run_end(s, i + 1, units)
    } else {
        i
    }
}

pub proof fn lemma_run_end(s: Seq<char>, i: int, units: bool)
    requires 0 <= i <= s.len(),
    ensures i <= run_end(s, i, units) <= s.len(),
    decreases s.len() - i,
{
    if i < s.len() {
        lemma_run_end(s, i + 1, units);
    }
}

proof fn lemma_run_end_shift(s: Seq<char>, a: int, i: int, units: bool)
    requires 0 <= a <= i <= s.len(),
    ensures run_end(s.subrange(a, s.len() as int), i - a, units) == run_end(s, i, units) - a,
    decreases s.len() - i,
{
    if i < s.len() {
        assert(s.subrange(a, s.len() as int)[i - a] == s[i]);
        lemma_run_end_shift(s, a, i + 1, units);
    }
}

fn is_run_char(c: char, units: bool) -> (r: bool)
    ensures r == (if units { unit_char(c) } else { num_char(c) }),
{
    if units { is_ascii_alphabetic(c) || c == '%' } else { is_ascii_digit(c) || c == '.' }
}

fn run_end_exec(v: &Vec<char>, i: usize, units: bool) -> (r: usize)
    requires i <= v.len(),
    ensures r == run_end(v@, i as int, units),
{
    proof { lemma_run_end(v@, i as int, units); }
    let mut k = i;
    while k < v.len() && is_run_char(v[k], units)
        invariant
            i <= k <= v.len(),
            run_end(v@, i as int, units) == run_end(v@, k as int, units),
        decreases v.len() - k,
    {
        k = k + 1;
    }
    k
}

pub open spec fn cons_all(prefix: Seq<TokenView>, rest: Option<Seq<TokenView>>) -> Option<Seq<TokenView>> {
    match rest {
        Some(r) => Some(prefix + r),
        None => None,
    }
}

/// `s` starts with a nested `calc(`, which opens a parenthesis like `(`.
pub open spec fn is_nested_calc(s: Seq<char>) -> bool {
    s.len() >= 5 && s[0] == 'c' && s[1] == 'a' && s[2] == 'l' && s[3] == 'c' && s[4] == '('
}

/// The tokens of `s`. `after` tells whether the previous token ends an
/// operand (a value or `)`), which makes a `+` or `-` an operator rather
/// than a sign. White space separates tokens; a nested `calc(` reads as `(`;
/// a number is an optional sign, digits and points, then a unit; anything
/// else makes the expression unreadable.
pub open spec fn tok_scan(s: Seq<char>, after: bool) -> Option<Seq<TokenView>>
    decreases s.len(),
{
    if s.len() == 0 {
        Some(seq![])
    } else {
        let c = s[0];
        if is_ws(c) {
            tok_scan(s.drop_first(), after)
        } else if c == '*' || c == '/' || ((c == '+' || c == '-') && after) {
            cons_all(seq![TokenView::Op(c)], tok_scan(s.drop_first(), false))
        } else if c == '(' {
            cons_all(seq![TokenView::Open], tok_scan(s.drop_first(), false))
        } else if is_nested_calc(s) {
            cons_all(seq![TokenView::Open], tok_scan(s.subrange(5, s.len() as int), false))
        } else if c == ')' {
            cons_all(seq![TokenView::Close], tok_scan(s.drop_first(), true))
        } else {
            let st: int = if c == '+' || c == '-' { 1 } else { 0 };
            let ne = run_end(s, st, false);
            let ue = run_end(s, ne, true);
            proof {
                lemma_run_end(s, st, false);
                lemma_run_end(s, ne, true);
            }
            if ne == st {
                None
            } else {
                match parse_number(s.subrange(0, ne)) {
                    None => None,
                    Some(q) => cons_all(
                        seq![TokenView::Value(QuantityView { num: q.0, den: q.1, unit: s.subrange(ne, ue) })],
                        tok_scan(s.subrange(ue, s.len() as int), true),
                    ),
                }
            }
        }
    }
}

/// The tokens of a `calc()` body (see `tok_scan`).
#[verifier::rlimit(100)]
pub fn tokenize(v: &Vec<char>) -> (r: Option<Vec<Token>>)
    ensures
        r matches Some(t) ==> tok_scan(v@, false) == Some(toks_view(t@)) && all_bounded(toks_view(t@)),
        r is None ==> tok_scan(v@, false) is None,
{
    let mut toks: Vec<Token> = Vec::new();
    let mut after = false;
    let mut i: usize = 0;
    assert(v@.subrange(0, v@.len() as int) == v@);
    assert(toks_view(toks@) + seq![] =~= seq![]);
    while i < v.len()
        invariant
            i <= v.len(),
            cons_all(toks_view(toks@), tok_scan(v@.subrange(i as int, v@.len() as int), after)) == tok_scan(v@, false),
            all_bounded(toks_view(toks@)),
        decreases v.len() - i,
    {
        let ghost r = v@.subrange(i as int, v@.len() as int);
        let ghost pre = toks_view(toks@);
        assert(r[0] == v@[i as int]);
        assert(r.drop_first() == v@.subrange(i + 1, v@.len() as int));
        let c = v[i];
        if is_whitespace(c) {
            i = i + 1;
        } else if c == '*' || c == '/' || ((c == '+' || c == '-') && after) {
            toks.push(Token::Op(c));
            assert(toks_view(toks@) =~= pre.push(TokenView::Op(c)));
            i = i + 1;
            after = false;
            proof {
                match tok_scan(r.drop_first(), false) {
                    Some(x) => { assert(pre + (seq![TokenView::Op(c)] + x) =~= pre.push(TokenView::Op(c)) + x); },
                    None => {},
                }
            }
        } else if c == '(' {
            toks.push(Token::Open);
            assert(toks_view(toks@) =~= pre.push(TokenView::Open));
            i = i + 1;
            after = false;
            proof {
                match tok_scan(r.drop_first(), false) {
                    Some(x) => { assert(pre + (seq![TokenView::Open] + x) =~= pre.push(TokenView::Open) + x); },
                    None => {},
                }
            }
        } else if c == 'c' && v.len() - i > 4 && v[i + 1] == 'a' && v[i + 2] == 'l' && v[i + 3] == 'c' && v[i + 4] == '(' {
            toks.push(Token::Open);
            assert(toks_view(toks@) =~= pre.push(TokenView::Open));
            assert(r.subrange(5, r.len() as int) =~= v@.subrange(i + 5, v@.len() as int));
            assert(is_nested_calc(r));
            i = i + 5;
            after = false;
            proof {
                match tok_scan(v@.subrange(i as int, v@.len() as int), false) {
                    Some(x) => { assert(pre + (seq![TokenView::Open] + x) =~= pre.push(TokenView::Open) + x); },
                    None => {},
                }
            }
        } else if c == ')' {
            toks.push(Token::Close);
            assert(toks_view(toks@) =~= pre.push(TokenView::Close));
            i = i + 1;
            after = true;
            proof {
                match tok_scan(r.drop_first(), true) {
                    Some(x) => { assert(pre + (seq![TokenView::Close] + x) =~= pre.push(TokenView::Close) + x); },
                    None => {},
                }
            }
        } else {
            let st = if c == '+' || c == '-' { i + 1 } else { i };
            let ne = run_end_exec(v, st, false);
            proof { lemma_run_end(v@, st as int, false); }
            let ue = run_end_exec(v, ne, true);
            proof {
                lemma_run_end(v@, ne as int, true);
                lemma_run_end_shift(v@, i as int, st as int, false);
                lemma_run_end_shift(v@, i as int, ne as int, true);
            }
            if ne == st {
                return None;
            }
            assert(r.subrange(0, ne - i) == v@.subrange(i as int, ne as int));
            match parse_number_exec(v, i, ne) {
                None => {
                    return None;
                },
                Some(q) => {
                    let unit = slice(v, ne, ue);
                    let ghost qv = QuantityView { num: q.0 as int, den: q.1 as int, unit: unit@ };
                    assert(r.subrange(ne - i, ue - i) == unit@);
                    assert(r.subrange(ue - i, r.len() as int) == v@.subrange(ue as int, v@.len() as int));
                    toks.push(Token::Value(Quantity { num: q.0, den: q.1, unit }));
                    assert(toks_view(toks@) =~= pre.push(TokenView::Value(qv)));
                    proof {
                        match tok_scan(v@.subrange(ue as int, v@.len() as int), true) {
                            Some(x) => { assert(pre + (seq![TokenView::Value(qv)] + x) =~= pre.push(TokenView::Value(qv)) + x); },
                            None => {},
                        }
                    }
                    i = ue;
                    after = true;
                },
            }
        }
    }
    assert(v@.subrange(i as int, v@.len() as int) =~= Seq::<char>::empty());
    assert(toks_view(toks@) + seq![] =~= toks_view(toks@));
    Some(toks)
}

// ───────────────────────────── evaluating ─────────────────────────────

/// A sum or difference: the units must agree, or one side be unitless (the
/// result takes the other side's unit).
pub open spec fn combine_add_sub(l: QuantityView, r: QuantityView, op: char) -> Option<QuantityView> {
    if !(l.unit == r.unit || l.unit.len() == 0 || r.unit.len() == 0) || !(op == '+' || op == '-') {
        None
    } else {
        let unit = if l.unit == r.unit { l.unit } else if l.unit.len() == 0 { r.unit } else { l.unit };
        match q_arith((l.num, l.den), (r.num, r.den), op) {
            Some(q) => Some(QuantityView { num: q.0, den: q.1, unit }),
            None => None,
        }
    }
}

/// A product or quotient: one side of a product must be unitless (the
/// result takes the other side's unit), and a quotient divides only by a
/// unitless value.
pub open spec fn combine_mul_div(l: QuantityView, r: QuantityView, op: char) -> Option<QuantityView> {
    if (l.unit.len() != 0 && r.unit.len() != 0) || !(op == '*' || op == '/') || (op == '/' && r.unit.len() != 0) {
        None
    } else {
        let unit = if l.unit.len() == 0 { r.unit } else { l.unit };
        match q_arith((l.num, l.den), (r.num, r.den), op) {
            Some(q) => Some(QuantityView { num: q.0, den: q.1, unit }),
            None => None,
        }
    }
}

/// An operand at `p`: a value, or a parenthesized sum. The value and the
/// position after it.
pub open spec fn p_atom(t: Seq<TokenView>, p: int) -> Option<(QuantityView, int)>
    decreases t.len() - p, 1int,
{
    if p < 0 || p >= t.len() {
        None
    } else {
        match t[p] {
            TokenView::Value(q) => Some((q, p + 1)),
            TokenView::Open => match p_add(t, p + 1) {
                Some((r, k)) => if p < k < t.len() && t[k] is Close { Some((r, k + 1)) } else { None },
                None => None,
            },
            _ => None,
        }
    }
}

/// The `*` and `/` steps after a product's first operand `l`, which ends at `k`.
pub open spec fn mul_tail(t: Seq<TokenView>, l: QuantityView, k: int) -> Option<(QuantityView, int)>
    decreases t.len() - k, 2int,
{
    if 0 <= k < t.len() {
        match t[k] {
            TokenView::Op(op) => if op == '*' || op == '/' {
                match p_atom(t, k + 1) {
                    Some((r, k2)) => if k < k2 <= t.len() {
                        match combine_mul_div(l, r, op) {
                            Some(v) => mul_tail(t, v, k2),
                            None => None,
                        }
                    } else {
                        None
                    },
                    None => None,
                }
            } else {
                Some((l, k))
            },
            _ => Some((l, k)),
        }
    } else {
        Some((l, k))
    }
}

/// A product at `p`: operands joined by `*` and `/`, from the left.
pub open spec fn p_mul(t: Seq<TokenView>, p: int) -> Option<(QuantityView, int)>
    decreases t.len() - p, 3int,
{
    match p_atom(t, p) {
        Some((l, k)) => if p < k <= t.len() { mul_tail(t, l, k) } else { None },
        None => None,
    }
}

/// The `+` and `-` steps after a sum's first product `l`, which ends at `k`.
pub open spec fn add_tail(t: Seq<TokenView>, l: QuantityView, k: int) -> Option<(QuantityView, int)>
    decreases t.len() - k, 4int,
{
    if 0 <= k < t.len() {
        match t[k] {
            TokenView::Op(op) => if op == '+' || op == '-' {
                match p_mul(t, k + 1) {
                    Some((r, k2)) => if k < k2 <= t.len() {
                        match combine_add_sub(l, r, op) {
                            Some(v) => add_tail(t, v, k2),
                            None => None,
                        }
                    } else {
                        None
                    },
                    None => None,
                }
            } else {
                Some((l, k))
            },
            _ => Some((l, k)),
        }
    } else {
        Some((l, k))
    }
}

/// A sum at `p`: products joined by `+` and `-`, from the left.
pub open spec fn p_add(t: Seq<TokenView>, p: int) -> Option<(QuantityView, int)>
    decreases t.len() - p, 5int,
{
    match p_mul(t, p) {
        Some((l, k)) => if p < k <= t.len() { add_tail(t, l, k) } else { None },
        None => None,
    }
}

/// The value of a whole token sequence: one sum, with nothing left over.
pub open spec fn p_expression(t: Seq<TokenView>) -> Option<QuantityView> {
    match p_add(t, 0) {
        Some((q, k)) => if k == t.len() { Some(q) } else { None },
        None => None,
    }
}

/// The sign a `+` or `-` gives its right operand.
pub open spec fn sign(op: char) -> int {
    if op == '+' { 1 } else { -1 }
}

/// Two exact steps `x = a ± b` and `v = x ± c` make `v = a ± b ± c`.
proof fn lemma_chain_arith(an: int, ad: int, bn: int, bd: int, cn: int, cd: int, xn: int, xd: int, vn: int, vd: int, s1: int, s2: int)
    requires
        xd > 0,
        xn * (ad * bd) == (an * bd + s1 * bn * ad) * xd,
        vn * (xd * cd) == (xn * cd + s2 * cn * xd) * vd,
    ensures
        vn * (ad * bd * cd) == (an * bd * cd + s1 * bn * ad * cd + s2 * cn * ad * bd) * vd,
{
    let p = ad * bd;
    let l = vn * (ad * bd * cd);
    let r = (an * bd * cd + s1 * bn * ad * cd + s2 * cn * ad * bd) * vd;
    assert(vn * (xd * cd) * p == (xn * cd + s2 * cn * xd) * vd * p) by (nonlinear_arith)
        requires vn * (xd * cd) == (xn * cd + s2 * cn * xd) * vd;
    assert((xn * cd + s2 * cn * xd) * vd * p == (xn * p) * (cd * vd) + s2 * cn * xd * vd * p) by (nonlinear_arith);
    assert((xn * p) * (cd * vd) == ((an * bd + s1 * bn * ad) * xd) * (cd * vd)) by (nonlinear_arith)
        requires xn * p == (an * bd + s1 * bn * ad) * xd;
    let t1 = an * bd * cd;
    let t2 = s1 * bn * ad * cd;
    let t3 = s2 * cn * ad * bd;
    let k = xd * vd;
    assert(xd * r == k * t1 + k * t2 + k * t3) by (nonlinear_arith)
        requires r == (t1 + t2 + t3) * vd, k == xd * vd;
    assert(((an * bd + s1 * bn * ad) * xd) * (cd * vd) == (an * bd) * xd * (cd * vd) + (s1 * bn * ad) * xd * (cd * vd)) by (nonlinear_arith);
    assert((an * bd) * xd * (cd * vd) == k * t1) by (nonlinear_arith)
        requires k == xd * vd, t1 == an * bd * cd;
    assert((s1 * bn * ad) * xd * (cd * vd) == k * t2) by (nonlinear_arith)
        requires k == xd * vd, t2 == s1 * bn * ad * cd;
    assert(s2 * cn * xd * vd * (ad * bd) == k * t3) by (nonlinear_arith)
        requires k == xd * vd, t3 == s2 * cn * ad * bd;
    assert(vn * (xd * cd) * (ad * bd) == xd * l) by (nonlinear_arith)
        requires l == vn * (ad * bd * cd);
    assert(xd * l == xd * r);
    assert(l == r) by (nonlinear_arith)
        requires xd > 0, xd * l == xd * r;
}

/// Sums and differences are evaluated from the left: for values `a`, `b`
/// and `c` of one unit, `a op1 b op2 c` is the exact value
/// `a ± b ± c` (so `10px - 2px - 3px` is `5px`), in that unit; and it has a
/// value whenever `a op1 b` and that result `op2 c` are within the limits.
pub proof fn lemma_sum_chain_from_left(a: QuantityView, b: QuantityView, c: QuantityView, op1: char, op2: char)
    requires
        a.unit == b.unit,
        b.unit == c.unit,
        a.den > 0,
        b.den > 0,
        c.den > 0,
        op1 == '+' || op1 == '-',
        op2 == '+' || op2 == '-',
    ensures
        p_expression(seq![TokenView::Value(a), TokenView::Op(op1), TokenView::Value(b), TokenView::Op(op2), TokenView::Value(c)])
            matches Some(q) ==> {
                &&& q.unit == a.unit
                &&& q.den > 0
                &&& q.num * (a.den * b.den * c.den)
                    == (a.num * b.den * c.den + sign(op1) * b.num * a.den * c.den + sign(op2) * c.num * a.den * b.den) * q.den
            },
        (q_arith((a.num, a.den), (b.num, b.den), op1) matches Some(ab)
            && q_arith(ab, (c.num, c.den), op2) is Some)
            ==> p_expression(seq![TokenView::Value(a), TokenView::Op(op1), TokenView::Value(b), TokenView::Op(op2), TokenView::Value(c)]) is Some,
{
    let t = seq![TokenView::Value(a), TokenView::Op(op1), TokenView::Value(b), TokenView::Op(op2), TokenView::Value(c)];
    assert(p_atom(t, 0) == Some((a, 1int)));
    assert(mul_tail(t, a, 1) == Some((a, 1int)));
    assert(p_mul(t, 0) == Some((a, 1int)));
    assert(p_atom(t, 2) == Some((b, 3int)));
    assert(mul_tail(t, b, 3) == Some((b, 3int)));
    assert(p_mul(t, 2) == Some((b, 3int)));
    assert(p_atom(t, 4) == Some((c, 5int)));
    assert(mul_tail(t, c, 5) == Some((c, 5int)));
    assert(p_mul(t, 4) == Some((c, 5int)));
    match combine_add_sub(a, b, op1) {
        None => {
            assert(add_tail(t, a, 1) is None);
        },
        Some(ab) => {
            lemma_q_arith_exact((a.num, a.den), (b.num, b.den), op1);
            match combine_add_sub(ab, c, op2) {
                None => {
                    assert(add_tail(t, ab, 3) is None);
                    assert(add_tail(t, a, 1) is None);
                },
                Some(v) => {
                    lemma_q_arith_exact((ab.num, ab.den), (c.num, c.den), op2);
                    assert(add_tail(t, v, 5) == Some((v, 5int)));
                    assert(add_tail(t, ab, 3) == Some((v, 5int)));
                    assert(add_tail(t, a, 1) == Some((v, 5int)));
                    assert(p_expression(t) == Some(v));
                    let (an, ad, bn, bd, cn, cd) = (a.num, a.den, b.num, b.den, c.num, c.den);
                    let (xn, xd, vn, vd) = (ab.num, ab.den, v.num, v.den);
                    let (s1, s2) = (sign(op1), sign(op2));
                    if op1 == '+' {
                        assert(xn * (ad * bd) == (an * bd + s1 * bn * ad) * xd) by (nonlinear_arith)
                            requires xn * (ad * bd) == (an * bd + bn * ad) * xd, s1 == 1;
                    } else {
                        assert(xn * (ad * bd) == (an * bd + s1 * bn * ad) * xd) by (nonlinear_arith)
                            requires xn * (ad * bd) == (an * bd - bn * ad) * xd, s1 == -1;
                    }
                    if op2 == '+' {
                        assert(vn * (xd * cd) == (xn * cd + s2 * cn * xd) * vd) by (nonlinear_arith)
                            requires vn * (xd * cd) == (xn * cd + cn * xd) * vd, s2 == 1;
                    } else {
                        assert(vn * (xd * cd) == (xn * cd + s2 * cn * xd) * vd) by (nonlinear_arith)
                            requires vn * (xd * cd) == (xn * cd - cn * xd) * vd, s2 == -1;
                    }
                    lemma_chain_arith(a.num, a.den, b.num, b.den, c.num, c.den, ab.num, ab.den, v.num, v.den, sign(op1), sign(op2));
                },
            }
        },
    }
}

/// The numerator of the factor that `op` applies with `q`: `q` itself for
/// `*`, its reciprocal for `/`.
pub open spec fn factor_num(op: char, q: QuantityView) -> int {
    if op == '*' { q.num } else { q.den }
}

/// The denominator of that factor.
pub open spec fn factor_den(op: char, q: QuantityView) -> int {
    if op == '*' { q.den } else { q.num }
}

/// A product or quotient, exactly: `l op r` scales `l` by the factor.
proof fn lemma_mul_div_exact(l: QuantityView, r: QuantityView, op: char)
    requires
        l.den > 0,
        r.den > 0,
        combine_mul_div(l, r, op) is Some,
    ensures
        ({
            let v = combine_mul_div(l, r, op)->0;
            &&& v.den > 0
            &&& v.num * (l.den * factor_den(op, r)) == (l.num * factor_num(op, r)) * v.den
        }),
{
    lemma_q_arith_exact((l.num, l.den), (r.num, r.den), op);
}

/// Two exact scalings `x = a·f1` and `v = x·f2` make `v = a·f1·f2`.
proof fn lemma_mul_chain_arith(an: int, ad: int, f1n: int, f1d: int, f2n: int, f2d: int, xn: int, xd: int, vn: int, vd: int)
    requires
        xd > 0,
        xn * (ad * f1d) == (an * f1n) * xd,
        vn * (xd * f2d) == (xn * f2n) * vd,
    ensures
        vn * (ad * f1d * f2d) == an * f1n * f2n * vd,
{
    let l = vn * (ad * f1d * f2d);
    let r = an * f1n * f2n * vd;
    assert(vn * (xd * f2d) * (ad * f1d) == (xn * f2n) * vd * (ad * f1d)) by (nonlinear_arith)
        requires vn * (xd * f2d) == (xn * f2n) * vd;
    assert((xn * f2n) * vd * (ad * f1d) == (xn * (ad * f1d)) * (f2n * vd)) by (nonlinear_arith);
    assert((xn * (ad * f1d)) * (f2n * vd) == ((an * f1n) * xd) * (f2n * vd)) by (nonlinear_arith)
        requires xn * (ad * f1d) == (an * f1n) * xd;
    assert(((an * f1n) * xd) * (f2n * vd) == xd * r) by (nonlinear_arith)
        requires r == an * f1n * f2n * vd;
    assert(vn * (xd * f2d) * (ad * f1d) == xd * l) by (nonlinear_arith)
        requires l == vn * (ad * f1d * f2d);
    assert(l == r) by (nonlinear_arith)
        requires xd > 0, xd * l == xd * r;
}

/// Products and quotients are evaluated from the left: `a op1 b op2 c`
/// with unitless `b` and `c` is `a` scaled by `b` and then by `c` (so
/// `12px / 2 / 3` is `2px`), in `a`'s unit; and it has a value whenever the
/// two steps stay within the limits.
pub proof fn lemma_product_chain_from_left(a: QuantityView, b: QuantityView, c: QuantityView, op1: char, op2: char)
    requires
        b.unit.len() == 0,
        c.unit.len() == 0,
        a.den > 0,
        b.den > 0,
        c.den > 0,
        op1 == '*' || op1 == '/',
        op2 == '*' || op2 == '/',
    ensures
        p_expression(seq![TokenView::Value(a), TokenView::Op(op1), TokenView::Value(b), TokenView::Op(op2), TokenView::Value(c)])
            matches Some(q) ==> {
                &&& q.unit == a.unit
                &&& q.den > 0
                &&& q.num * (a.den * factor_den(op1, b) * factor_den(op2, c))
                    == a.num * factor_num(op1, b) * factor_num(op2, c) * q.den
            },
        (q_arith((a.num, a.den), (b.num, b.den), op1) matches Some(ab)
            && q_arith(ab, (c.num, c.den), op2) is Some)
            ==> p_expression(seq![TokenView::Value(a), TokenView::Op(op1), TokenView::Value(b), TokenView::Op(op2), TokenView::Value(c)]) is Some,
{
    let t = seq![TokenView::Value(a), TokenView::Op(op1), TokenView::Value(b), TokenView::Op(op2), TokenView::Value(c)];
    assert(p_atom(t, 0) == Some((a, 1int)));
    assert(p_atom(t, 2) == Some((b, 3int)));
    assert(p_atom(t, 4) == Some((c, 5int)));
    match combine_mul_div(a, b, op1) {
        None => {
            assert(mul_tail(t, a, 1) is None);
            assert(p_mul(t, 0) is None);
        },
        Some(ab) => {
            lemma_mul_div_exact(a, b, op1);
            match combine_mul_div(ab, c, op2) {
                None => {
                    assert(mul_tail(t, ab, 3) is None);
                    assert(mul_tail(t, a, 1) is None);
                    assert(p_mul(t, 0) is None);
                },
                Some(v) => {
                    lemma_mul_div_exact(ab, c, op2);
                    assert(mul_tail(t, v, 5) == Some((v, 5int)));
                    assert(mul_tail(t, ab, 3) == Some((v, 5int)));
                    assert(mul_tail(t, a, 1) == Some((v, 5int)));
                    assert(p_mul(t, 0) == Some((v, 5int)));
                    assert(add_tail(t, v, 5) == Some((v, 5int)));
                    assert(p_expression(t) == Some(v));
                    lemma_mul_chain_arith(a.num, a.den, factor_num(op1, b), factor_den(op1, b),
                        factor_num(op2, c), factor_den(op2, c), ab.num, ab.den, v.num, v.den);
                },
            }
        },
    }
}

/// `v = a ± x` with `x = b·f` makes `v = a ± b·f`.
proof fn lemma_prec_arith(an: int, ad: int, bn: int, bd: int, f_n: int, f_d: int, xn: int, xd: int, vn: int, vd: int, s1: int)
    requires
        xd > 0,
        xn * (bd * f_d) == (bn * f_n) * xd,
        vn * (ad * xd) == (an * xd + s1 * xn * ad) * vd,
    ensures
        vn * (ad * bd * f_d) == (an * bd * f_d + s1 * ad * bn * f_n) * vd,
{
    let l = vn * (ad * bd * f_d);
    let r = (an * bd * f_d + s1 * ad * bn * f_n) * vd;
    assert(xd * l == vn * (ad * xd) * (bd * f_d)) by (nonlinear_arith)
        requires l == vn * (ad * bd * f_d);
    assert(vn * (ad * xd) * (bd * f_d) == (an * xd + s1 * xn * ad) * vd * (bd * f_d)) by (nonlinear_arith)
        requires vn * (ad * xd) == (an * xd + s1 * xn * ad) * vd;
    let pp = bd * f_d;
    let qq = bn * f_n;
    let aa = an * xd;
    let bb = s1 * xn * ad;
    assert((an * xd + s1 * xn * ad) * vd * (bd * f_d) == (aa + bb) * vd * pp);
    assert((aa + bb) * vd * pp == aa * vd * pp + bb * vd * pp) by (nonlinear_arith);
    assert(bb * vd * pp == s1 * ad * vd * (xn * pp)) by (nonlinear_arith)
        requires bb == s1 * xn * ad;
    assert(s1 * ad * vd * (xn * pp) == s1 * ad * vd * (qq * xd)) by (nonlinear_arith)
        requires xn * pp == qq * xd;
    assert(aa * vd * pp == xd * (vd * (an * pp))) by (nonlinear_arith)
        requires aa == an * xd;
    assert(s1 * ad * vd * (qq * xd) == xd * (vd * (s1 * ad * qq))) by (nonlinear_arith);
    assert(r == (an * pp + s1 * ad * qq) * vd) by (nonlinear_arith)
        requires r == (an * bd * f_d + s1 * ad * bn * f_n) * vd, pp == bd * f_d, qq == bn * f_n;
    assert(xd * r == xd * (vd * (an * pp)) + xd * (vd * (s1 * ad * qq))) by (nonlinear_arith)
        requires r == (an * pp + s1 * ad * qq) * vd;
    assert(l == r) by (nonlinear_arith)
        requires xd > 0, xd * l == xd * r;
}

/// Products bind tighter than sums: `a op1 b op2 c` with `op1` a `+` or `-`,
/// `op2` a `*` or `/` and `c` unitless is `a ± (b op2 c)` (so
/// `2px + 3px * 2` is `8px`).
pub proof fn lemma_product_before_sum(a: QuantityView, b: QuantityView, c: QuantityView, op1: char, op2: char)
    requires
        a.unit == b.unit,
        c.unit.len() == 0,
        a.den > 0,
        b.den > 0,
        c.den > 0,
        op1 == '+' || op1 == '-',
        op2 == '*' || op2 == '/',
    ensures
        p_expression(seq![TokenView::Value(a), TokenView::Op(op1), TokenView::Value(b), TokenView::Op(op2), TokenView::Value(c)])
            matches Some(q) ==> {
                &&& q.unit == a.unit
                &&& q.den > 0
                &&& q.num * (a.den * b.den * factor_den(op2, c))
                    == (a.num * b.den * factor_den(op2, c) + sign(op1) * a.den * b.num * factor_num(op2, c)) * q.den
            },
        (q_arith((b.num, b.den), (c.num, c.den), op2) matches Some(bc)
            && q_arith((a.num, a.den), bc, op1) is Some)
            ==> p_expression(seq![TokenView::Value(a), TokenView::Op(op1), TokenView::Value(b), TokenView::Op(op2), TokenView::Value(c)]) is Some,
{
    let t = seq![TokenView::Value(a), TokenView::Op(op1), TokenView::Value(b), TokenView::Op(op2), TokenView::Value(c)];
    assert(p_atom(t, 0) == Some((a, 1int)));
    assert(mul_tail(t, a, 1) == Some((a, 1int)));
    assert(p_mul(t, 0) == Some((a, 1int)));
    assert(p_atom(t, 2) == Some((b, 3int)));
    assert(p_atom(t, 4) == Some((c, 5int)));
    match combine_mul_div(b, c, op2) {
        None => {
            assert(mul_tail(t, b, 3) is None);
            assert(p_mul(t, 2) is None);
            assert(add_tail(t, a, 1) is None);
        },
        Some(bc) => {
            lemma_mul_div_exact(b, c, op2);
            assert(mul_tail(t, bc, 5) == Some((bc, 5int)));
            assert(mul_tail(t, b, 3) == Some((bc, 5int)));
            assert(p_mul(t, 2) == Some((bc, 5int)));
            match combine_add_sub(a, bc, op1) {
                None => {
                    assert(add_tail(t, a, 1) is None);
                },
                Some(v) => {
                    lemma_q_arith_exact((a.num, a.den), (bc.num, bc.den), op1);
                    assert(add_tail(t, v, 5) == Some((v, 5int)));
                    assert(add_tail(t, a, 1) == Some((v, 5int)));
                    assert(p_expression(t) == Some(v));
                    let (an, ad, xn, xd, vn, vd) = (a.num, a.den, bc.num, bc.den, v.num, v.den);
                    let s1 = sign(op1);
                    if op1 == '+' {
                        assert(vn * (ad * xd) == (an * xd + s1 * xn * ad) * vd) by (nonlinear_arith)
                            requires vn * (ad * xd) == (an * xd + xn * ad) * vd, s1 == 1;
                    } else {
                        assert(vn * (ad * xd) == (an * xd + s1 * xn * ad) * vd) by (nonlinear_arith)
                            requires vn * (ad * xd) == (an * xd - xn * ad) * vd, s1 == -1;
                    }
                    lemma_prec_arith(an, ad, b.num, b.den, factor_num(op2, c), factor_den(op2, c), xn, xd, vn, vd, s1);
                },
            }
        },
    }
}

/// `x = b ± c` and `v = a ± x` make `v = a ± b ± c` with the second sign
/// applied through the first.
proof fn lemma_group_arith(an: int, ad: int, bn: int, bd: int, cn: int, cd: int, xn: int, xd: int, vn: int, vd: int, s1: int, s2: int)
    requires
        xd > 0,
        xn * (bd * cd) == (bn * cd + s2 * cn * bd) * xd,
        vn * (ad * xd) == (an * xd + s1 * xn * ad) * vd,
    ensures
        vn * (ad * bd * cd) == (an * bd * cd + s1 * bn * ad * cd + s1 * s2 * cn * ad * bd) * vd,
{
    let pp = bd * cd;
    let qq = bn * cd + s2 * cn * bd;
    assert(xn * pp == qq * xd);
    lemma_prec_arith(an, ad, qq, 1, 1, pp, xn, xd, vn, vd, s1);
    assert(xn * (1 * pp) == (qq * 1) * xd);
    assert(vn * (ad * 1 * pp) == (an * 1 * pp + s1 * ad * qq * 1) * vd);
    assert(vn * (ad * 1 * pp) == vn * (ad * bd * cd)) by (nonlinear_arith)
        requires pp == bd * cd;
    assert(an * 1 * pp == an * bd * cd) by (nonlinear_arith)
        requires pp == bd * cd;
    let u = s1 * ad;
    assert(s1 * ad * qq * 1 == u * qq) by (nonlinear_arith)
        requires u == s1 * ad;
    assert(u * qq == u * (bn * cd) + u * (s2 * cn * bd)) by (nonlinear_arith)
        requires qq == bn * cd + s2 * cn * bd;
    assert(u * (bn * cd) == s1 * bn * ad * cd) by (nonlinear_arith)
        requires u == s1 * ad;
    assert(u * (s2 * cn * bd) == s1 * s2 * cn * ad * bd) by (nonlinear_arith)
        requires u == s1 * ad;
    assert(an * 1 * pp + s1 * ad * qq * 1 == an * bd * cd + s1 * bn * ad * cd + s1 * s2 * cn * ad * bd);
}

/// Parentheses group: `a op1 (b op2 c)` with sums and differences of one
/// unit is `a ± (b ± c)` (so `10px - (2px - 3px)` is `11px`, where
/// `10px - 2px - 3px` is `5px`).
pub proof fn lemma_parentheses_group(a: QuantityView, b: QuantityView, c: QuantityView, op1: char, op2: char)
    requires
        a.unit == b.unit,
        b.unit == c.unit,
        a.den > 0,
        b.den > 0,
        c.den > 0,
        op1 == '+' || op1 == '-',
        op2 == '+' || op2 == '-',
    ensures
        p_expression(seq![TokenView::Value(a), TokenView::Op(op1), TokenView::Open, TokenView::Value(b),
            TokenView::Op(op2), TokenView::Value(c), TokenView::Close]) matches Some(q) ==> {
                &&& q.unit == a.unit
                &&& q.den > 0
                &&& q.num * (a.den * b.den * c.den)
                    == (a.num * b.den * c.den + sign(op1) * b.num * a.den * c.den + sign(op1) * sign(op2) * c.num * a.den * b.den) * q.den
            },
{
    let t = seq![TokenView::Value(a), TokenView::Op(op1), TokenView::Open, TokenView::Value(b),
        TokenView::Op(op2), TokenView::Value(c), TokenView::Close];
    assert(p_atom(t, 0) == Some((a, 1int)));
    assert(mul_tail(t, a, 1) == Some((a, 1int)));
    assert(p_mul(t, 0) == Some((a, 1int)));
    assert(p_atom(t, 3) == Some((b, 4int)));
    assert(mul_tail(t, b, 4) == Some((b, 4int)));
    assert(p_mul(t, 3) == Some((b, 4int)));
    assert(p_atom(t, 5) == Some((c, 6int)));
    assert(mul_tail(t, c, 6) == Some((c, 6int)));
    assert(p_mul(t, 5) == Some((c, 6int)));
    match combine_add_sub(b, c, op2) {
        None => {
            assert(add_tail(t, b, 4) is None);
            assert(p_add(t, 3) is None);
            assert(p_atom(t, 2) is None);
            assert(p_mul(t, 2) is None);
            assert(add_tail(t, a, 1) is None);
        },
        Some(x) => {
            lemma_q_arith_exact((b.num, b.den), (c.num, c.den), op2);
            assert(add_tail(t, x, 6) == Some((x, 6int)));
            assert(add_tail(t, b, 4) == Some((x, 6int)));
            assert(p_add(t, 3) == Some((x, 6int)));
            assert(p_atom(t, 2) == Some((x, 7int)));
            assert(mul_tail(t, x, 7) == Some((x, 7int)));
            assert(p_mul(t, 2) == Some((x, 7int)));
            match combine_add_sub(a, x, op1) {
                None => {
                    assert(add_tail(t, a, 1) is None);
                },
                Some(v) => {
                    lemma_q_arith_exact((a.num, a.den), (x.num, x.den), op1);
                    assert(add_tail(t, v, 7) == Some((v, 7int)));
                    assert(add_tail(t, a, 1) == Some((v, 7int)));
                    assert(p_expression(t) == Some(v));
                    let (s1, s2) = (sign(op1), sign(op2));
                    let (an, ad, bn, bd, cn, cd) = (a.num, a.den, b.num, b.den, c.num, c.den);
                    let (xn, xd, vn, vd) = (x.num, x.den, v.num, v.den);
                    if op2 == '+' {
                        assert(xn * (bd * cd) == (bn * cd + s2 * cn * bd) * xd) by (nonlinear_arith)
                            requires xn * (bd * cd) == (bn * cd + cn * bd) * xd, s2 == 1;
                    } else {
                        assert(xn * (bd * cd) == (bn * cd + s2 * cn * bd) * xd) by (nonlinear_arith)
                            requires xn * (bd * cd) == (bn * cd - cn * bd) * xd, s2 == -1;
                    }
                    if op1 == '+' {
                        assert(vn * (ad * xd) == (an * xd + s1 * xn * ad) * vd) by (nonlinear_arith)
                            requires vn * (ad * xd) == (an * xd + xn * ad) * vd, s1 == 1;
                    } else {
                        assert(vn * (ad * xd) == (an * xd + s1 * xn * ad) * vd) by (nonlinear_arith)
                            requires vn * (ad * xd) == (an * xd - xn * ad) * vd, s1 == -1;
                    }
                    lemma_group_arith(an, ad, bn, bd, cn, cd, xn, xd, vn, vd, s1, s2);
                },
            }
        },
    }
}

/// A sum or difference of bounded quantities (see `combine_add_sub`).
fn combine_add_sub_exec(l: &Quantity, r: &Quantity, op: char) -> (res: Option<Quantity>)
    requires qv_bounded(l@), qv_bounded(r@),
    ensures
        res matches Some(v) ==> qv_bounded(v@) && combine_add_sub(l@, r@, op) == Some(v@),
        res is None ==> combine_add_sub(l@, r@, op) is None,
{
    if !(op == '+' || op == '-') {
        return None;
    }
    let unit = if same(&l.unit, &r.unit) || l.unit.len() == 0 {
        copy_quantity(r).unit
    } else if r.unit.len() == 0 {
        copy_quantity(l).unit
    } else {
        return None;
    };
    match q_arith_exec((l.num, l.den), (r.num, r.den), op) {
        Some(q) => Some(Quantity { num: q.0, den: q.1, unit }),
        None => None,
    }
}

/// A product or quotient of bounded quantities (see `combine_mul_div`).
fn combine_mul_div_exec(l: &Quantity, r: &Quantity, op: char) -> (res: Option<Quantity>)
    requires qv_bounded(l@), qv_bounded(r@),
    ensures
        res matches Some(v) ==> qv_bounded(v@) && combine_mul_div(l@, r@, op) == Some(v@),
        res is None ==> combine_mul_div(l@, r@, op) is None,
{
    if !(op == '*' || op == '/') || (op == '/' && r.unit.len() != 0) {
        return None;
    }
    let unit = if l.unit.len() == 0 {
        copy_quantity(r).unit
    } else if r.unit.len() == 0 {
        copy_quantity(l).unit
    } else {
        return None;
    };
    match q_arith_exec((l.num, l.den), (r.num, r.den), op) {
        Some(q) => Some(Quantity { num: q.0, den: q.1, unit }),
        None => None,
    }
}

/// `p_atom` on bounded tokens.
fn parse_atom(t: &Vec<Token>, p: usize) -> (r: Option<(Quantity, usize)>)
    requires
        p <= t.len(),
        all_bounded(toks_view(t@)),
    ensures
        r matches Some((q, k)) ==> p_atom(toks_view(t@), p as int) == Some((q@, k as int)) && qv_bounded(q@),
        r is None ==> p_atom(toks_view(t@), p as int) is None,
    decreases t.len() - p, 1int,
{
    let ghost tv = toks_view(t@);
    if p >= t.len() {
        return None;
    }
    assert(tv[p as int] == t@[p as int]@);
    match &t[p] {
        Token::Value(q) => Some((copy_quantity(q), p + 1)),
        Token::Open => match parse_add(t, p + 1) {
            Some((r, k)) => {
                if p < k && k < t.len() && matches!(t[k], Token::Close) {
                    assert(tv[k as int] == t@[k as int]@);
                    Some((r, k + 1))
                } else {
                    proof {
                        if p < k && k < t.len() {
                            assert(tv[k as int] == t@[k as int]@);
                        }
                    }
                    None
                }
            },
            None => None,
        },
        _ => None,
    }
}

/// `mul_tail` on bounded tokens.
fn parse_mul_tail(t: &Vec<Token>, l: Quantity, k: usize) -> (r: Option<(Quantity, usize)>)
    requires
        k <= t.len(),
        all_bounded(toks_view(t@)),
        qv_bounded(l@),
    ensures
        r matches Some((q, j)) ==> mul_tail(toks_view(t@), l@, k as int) == Some((q@, j as int)) && qv_bounded(q@),
        r is None ==> mul_tail(toks_view(t@), l@, k as int) is None,
    decreases t.len() - k, 2int,
{
    let ghost tv = toks_view(t@);
    if k >= t.len() {
        return Some((l, k));
    }
    assert(tv[k as int] == t@[k as int]@);
    match &t[k] {
        Token::Op(op) => {
            let op = *op;
            if op == '*' || op == '/' {
                match parse_atom(t, k + 1) {
                    Some((r, k2)) => {
                        if k < k2 && k2 <= t.len() {
                            match combine_mul_div_exec(&l, &r, op) {
                                Some(v) => parse_mul_tail(t, v, k2),
                                None => None,
                            }
                        } else {
                            None
                        }
                    },
                    None => None,
                }
            } else {
                Some((l, k))
            }
        },
        _ => Some((l, k)),
    }
}

/// `p_mul` on bounded tokens.
fn parse_mul(t: &Vec<Token>, p: usize) -> (r: Option<(Quantity, usize)>)
    requires
        p <= t.len(),
        all_bounded(toks_view(t@)),
    ensures
        r matches Some((q, k)) ==> p_mul(toks_view(t@), p as int) == Some((q@, k as int)) && qv_bounded(q@),
        r is None ==> p_mul(toks_view(t@), p as int) is None,
    decreases t.len() - p, 3int,
{
    match parse_atom(t, p) {
        Some((l, k)) => {
            if p < k && k <= t.len() {
                parse_mul_tail(t, l, k)
            } else {
                None
            }
        },
        None => None,
    }
}

/// `add_tail` on bounded tokens.
fn parse_add_tail(t: &Vec<Token>, l: Quantity, k: usize) -> (r: Option<(Quantity, usize)>)
    requires
        k <= t.len(),
        all_bounded(toks_view(t@)),
        qv_bounded(l@),
    ensures
        r matches Some((q, j)) ==> add_tail(toks_view(t@), l@, k as int) == Some((q@, j as int)) && qv_bounded(q@),
        r is None ==> add_tail(toks_view(t@), l@, k as int) is None,
    decreases t.len() - k, 4int,
{
    let ghost tv = toks_view(t@);
    if k >= t.len() {
        return Some((l, k));
    }
    assert(tv[k as int] == t@[k as int]@);
    match &t[k] {
        Token::Op(op) => {
            let op = *op;
            if op == '+' || op == '-' {
                match parse_mul(t, k + 1) {
                    Some((r, k2)) => {
                        if k < k2 && k2 <= t.len() {
                            match combine_add_sub_exec(&l, &r, op) {
                                Some(v) => parse_add_tail(t, v, k2),
                                None => None,
                            }
                        } else {
                            None
                        }
                    },
                    None => None,
                }
            } else {
                Some((l, k))
            }
        },
        _ => Some((l, k)),
    }
}

/// `p_add` on bounded tokens.
fn parse_add(t: &Vec<Token>, p: usize) -> (r: Option<(Quantity, usize)>)
    requires
        p <= t.len(),
        all_bounded(toks_view(t@)),
    ensures
        r matches Some((q, k)) ==> p_add(toks_view(t@), p as int) == Some((q@, k as int)) && qv_bounded(q@),
        r is None ==> p_add(toks_view(t@), p as int) is None,
    decreases t.len() - p, 5int,
{
    match parse_mul(t, p) {
        Some((l, k)) => {
            if p < k && k <= t.len() {
                parse_add_tail(t, l, k)
            } else {
                None
            }
        },
        None => None,
    }
}

/// The value of a whole token sequence (see `p_expression`).
pub fn parse_expression(t: &Vec<Token>) -> (r: Option<Quantity>)
    requires all_bounded(toks_view(t@)),
    ensures
        r matches Some(q) ==> p_expression(toks_view(t@)) == Some(q@) && qv_bounded(q@),
        r is None ==> p_expression(toks_view(t@)) is None,
{
    match parse_add(t, 0) {
        Some((q, k)) => if k == t.len() { Some(q) } else { None },
        None => None,
    }
}

// ───────────────────────────── calc() ─────────────────────────────

/// What a `calc()` body evaluates to, written out; none when it cannot be
/// evaluated (no tokens, unreadable, or not a well-formed expression of
/// compatible units).
pub open spec fn spec_try_evaluate(expr: Seq<char>) -> Option<Seq<char>> {
    match tok_scan(trim(expr), false) {
        Some(t) => if t.len() == 0 {
            None
        } else {
            match p_expression(t) {
                Some(q) => Some(format_quantity(q.num, q.den, q.unit)),
                None => None,
            }
        },
        None => None,
    }
}

/// Evaluates a `calc()` body (see `spec_try_evaluate`).
pub fn try_evaluate(expr: &Vec<char>) -> (r: Option<Vec<char>>)
    ensures
        r matches Some(v) ==> spec_try_evaluate(expr@) == Some(v@),
        r is None ==> spec_try_evaluate(expr@) is None,
{
    let e = trimmed(expr);
    let tokens = match tokenize(&e) {
        Some(t) => t,
        None => return None,
    };
    if tokens.len() == 0 {
        return None;
    }
    match parse_expression(&tokens) {
        Some(q) => Some(format_value(q.num, q.den, &q.unit)),
        None => None,
    }
}

/// The position of the `)` that closes a `(` already passed, in `v[from..]`,
/// relative to `from`.
pub fn find_matching_paren(v: &Vec<char>, from: usize) -> (r: Option<usize>)
    requires from <= v.len(),
    ensures
        r matches Some(k) ==> from + k < v.len() && close_index(v@.subrange(from as int, v@.len() as int), 0, 1, '(', ')') == Some(k as int),
        r is None ==> close_index(v@.subrange(from as int, v@.len() as int), 0, 1, '(', ')') is None,
{
    matching_close(v, from, '(', ')')
}

/// Every `calc(...)` of `r` replaced by its value where it can be evaluated.
/// A `calc(` whose parenthesis is never closed is kept and the scan goes on
/// after it; one that cannot be evaluated is kept as it was.
#[verifier::opaque]
pub open spec fn calc_scan(r: Seq<char>) -> Seq<char>
    decreases r.len(),
{
    match find(r, "calc("@) {
        None => r,
        Some(idx) => {
            proof { lemma_find_from_facts(r, "calc("@, 0); }
            if 0 <= idx && idx + 5 <= r.len() {
                let after = r.subrange(idx + 5, r.len() as int);
                proof { lemma_close_index(after, 0, 1, '(', ')'); }
                r.subrange(0, idx) + match close_index(after, 0, 1, '(', ')') {
                    None => "calc("@ + calc_scan(after),
                    Some(c) => if 0 <= c < after.len() {
                        let inner = after.subrange(0, c);
                        (match spec_try_evaluate(inner) {
                            Some(v) => v,
                            None => "calc("@ + inner + seq![')'],
                        }) + calc_scan(after.subrange(c + 1, after.len() as int))
                    } else {
                        r
                    },
                }
            } else {
                r
            }
        },
    }
}

/// What `calc_scan` does with a `calc(` found at `idx`.
pub open spec fn calc_piece(after: Seq<char>) -> (Seq<char>, Seq<char>) {
    match close_index(after, 0, 1, '(', ')') {
        None => ("calc("@, after),
        Some(c) => {
            let inner = after.subrange(0, c);
            (match spec_try_evaluate(inner) {
                Some(v) => v,
                None => "calc("@ + inner + seq![')'],
            }, after.subrange(c + 1, after.len() as int))
        },
    }
}

proof fn lemma_calc_scan_step(r: Seq<char>, idx: int)
    requires find(r, "calc("@) == Some(idx),
    ensures
        0 <= idx && idx + 5 <= r.len(),
        calc_scan(r) == r.subrange(0, idx) + calc_piece(r.subrange(idx + 5, r.len() as int)).0
            + calc_scan(calc_piece(r.subrange(idx + 5, r.len() as int)).1),
{
    reveal(calc_scan);
    reveal_strlit("calc(");
    lemma_find_from_facts(r, "calc("@, 0);
    let after = r.subrange(idx + 5, r.len() as int);
    lemma_close_index(after, 0, 1, '(', ')');
}

/// A text with no `calc(` in it comes back unchanged.
pub proof fn lemma_without_calc_unchanged(r: Seq<char>)
    requires find(r, "calc("@) is None,
    ensures calc_scan(r) == r,
{
    reveal(calc_scan);
}

/// `calc_scan` on characters.
#[verifier::rlimit(40)]
pub fn resolve_calcs_chars(v: &Vec<char>) -> (r: Vec<char>)
    ensures r@ == calc_scan(v@),
{
    proof { reveal_strlit("calc("); }
    let pat = lit("calc(");
    let mut out: Vec<char> = Vec::new();
    let mut i: usize = 0;
    assert(v@.subrange(0, v@.len() as int) == v@);
    while i <= v.len()
        invariant
            i <= v.len(),
            pat@ == "calc("@,
            out@ + calc_scan(v@.subrange(i as int, v@.len() as int)) == calc_scan(v@),
        decreases v.len() - i,
    {
        let ghost r = v@.subrange(i as int, v@.len() as int);
        proof {
            reveal_strlit("calc(");
            lemma_find_suffix(v@, pat@, i as int);
            lemma_find_from_facts(v@, pat@, i as int);
        }
        match find_in(v, &pat, i) {
            None => {
                push_range(&mut out, v, i, v.len());
                proof { lemma_without_calc_unchanged(r); }
                return out;
            },
            Some(idx) => {
                proof { lemma_calc_scan_step(r, idx - i); }
                let open_end = idx + 5;
                let ghost after = r.subrange(idx + 5 - i, r.len() as int);
                let ghost out0 = out@;
                assert(after == v@.subrange(open_end as int, v@.len() as int));
                assert(r.subrange(0, idx - i) == v@.subrange(i as int, idx as int));
                push_range(&mut out, v, i, idx);
                match find_matching_paren(v, open_end) {
                    None => {
                        push_str(&mut out, "calc(");
                        assert(out@ + calc_scan(after) =~= out0 + calc_scan(r));
                        i = open_end;
                    },
                    Some(c) => {
                        let close = open_end + c;
                        let inner = slice(v, open_end, close);
                        assert(after.subrange(0, c as int) == inner@);
                        let ghost rest = v@.subrange(close + 1, v@.len() as int);
                        assert(after.subrange(c + 1, after.len() as int) == rest);
                        match try_evaluate(&inner) {
                            Some(val) => {
                                push_all(&mut out, &val);
                            },
                            None => {
                                push_str(&mut out, "calc(");
                                push_all(&mut out, &inner);
                                out.push(')');
                            },
                        }
                        assert(out@ + calc_scan(rest) =~= out0 + calc_scan(r));
                        i = close + 1;
                    },
                }
            },
        }
    }
    out
}

/// Replaces every `calc()` of a CSS text that can be evaluated by its value.
pub fn resolve_calcs(input: &str) -> (r: String)
    ensures r@ == calc_scan(input@),
{
    let v = chars_of(input);
    let out = resolve_calcs_chars(&v);
    string_of(out.as_slice())
}

/// What the pass does to an element's attributes: its `style`, if any and
/// changed by `calc_scan`, is replaced.
pub open spec fn spec_element(attrs: Seq<(Seq<char>, Seq<char>)>) -> Seq<(Seq<char>, Seq<char>)> {
    match attr_get(attrs, "style"@) {
        Some(s) => if calc_scan(s) != s { attr_set(attrs, "style"@, calc_scan(s)) } else { attrs },
        None => attrs,
    }
}

/// What the pass does to a text chunk of a `<style>` block.
pub open spec fn spec_text(text: Seq<char>) -> Option<Seq<char>> {
    if calc_scan(text) != text { Some(calc_scan(text)) } else { None }
}

/// Resolves the `calc()` expressions of one element's `style` attribute.
pub fn on_element(el: &mut HtmlElement) -> (r: Result<(), AttributeNameError>)
    ensures
        r is Ok,
        crate::html::same_frame(*final(el), *old(el)),
        element_attrs(*final(el)) == spec_element(element_attrs(*old(el))),
{
    proof { reveal_strlit("style"); }
    if let Some(style) = get_attribute(el, "style") {
        let sv = chars_of(style.as_str());
        let resolved = resolve_calcs_chars(&sv);
        if !same(&resolved, &sv) {
            let rs = string_of(resolved.as_slice());
            return set_attribute(el, "style", rs.as_str());
        }
    }
    Ok(())
}

/// Resolves the `calc()` expressions of one text chunk of a `<style>` block.
pub fn on_text(t: &mut TextChunk)
    ensures
        chunk_text(*final(t)) == chunk_text(*old(t)),
        spec_text(chunk_text(*old(t))) matches Some(x) ==> chunk_replacement(*final(t)) == Some(x),
        spec_text(chunk_text(*old(t))) is None ==> chunk_replacement(*final(t)) == chunk_replacement(*old(t)),
{
    let css = chunk_string(t);
    let cv = chars_of(css.as_str());
    let resolved = resolve_calcs_chars(&cv);
    if !same(&resolved, &cv) {
        let rs = string_of(resolved.as_slice());
        replace_chunk(t, rs.as_str());
    }
}

/// Resolves `calc()` in every inline `style` attribute and `<style>` block.
pub fn process(html: &str) -> (r: Result<String, Error>)
    ensures
        r is Ok <==> rewrite_outcome(html@, "style"@, true, RuleView::ResolveCalc) is Ok,
        r matches Ok(s) ==> rewrite_outcome(html@, "style"@, true, RuleView::ResolveCalc)->Ok_0.0 == s@,
        r matches Err(e) ==> (e matches Error::HtmlRewrite(m) && rewrite_outcome(html@, "style"@, true, RuleView::ResolveCalc) matches Err(o) && o == m@),
{
    proof { reveal_strlit("style"); }
    let mut log = RewriteLog::new();
    match rewrite(html, "style", true, &HtmlRule::ResolveCalc, &mut log) {
        Ok(s) => Ok(s),
        Err(m) => Err(Error::HtmlRewrite(m)),
    }
}

} // verus!
