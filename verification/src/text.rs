//! Character-sequence helpers shared by the transformers.
//!
//! Every exec helper works on `Vec<char>` buffers and is specified over
//! `Seq<char>`, the view of both `str` and `String`.
use vstd::prelude::*;

verus! {

broadcast use vstd::string::group_string_axioms;

// ───────────────────────────── characters ─────────────────────────────

/// Unicode `White_Space`, the set that `char::is_whitespace`, `str::trim` and
/// `str::split_whitespace` use.
pub open spec fn is_ws(c: char) -> bool {
    ||| c == ' ' || c == '\t' || c == '\n' || c == '\x0B' || c == '\x0C' || c == '\r'
    ||| c == '\u{85}' || c == '\u{A0}' || c == '\u{1680}'
    ||| ('\u{2000}' <= c && c <= '\u{200A}')
    ||| c == '\u{2028}' || c == '\u{2029}' || c == '\u{202F}' || c == '\u{205F}'
    ||| c == '\u{3000}'
}

pub fn is_whitespace(c: char) -> (b: bool)
    ensures b == is_ws(c),
{
    c == ' ' || c == '\t' || c == '\n' || c == '\x0B' || c == '\x0C' || c == '\r'
        || c == '\u{85}' || c == '\u{A0}' || c == '\u{1680}'
        || ('\u{2000}' <= c && c <= '\u{200A}')
        || c == '\u{2028}' || c == '\u{2029}' || c == '\u{202F}' || c == '\u{205F}'
        || c == '\u{3000}'
}

pub open spec fn is_digit(c: char) -> bool {
    '0' <= c && c <= '9'
}

pub fn is_ascii_digit(c: char) -> (b: bool)
    ensures b == is_digit(c),
{
    '0' <= c && c <= '9'
}

pub open spec fn is_alpha(c: char) -> bool {
    ('a' <= c && c <= 'z') || ('A' <= c && c <= 'Z')
}

pub fn is_ascii_alphabetic(c: char) -> (b: bool)
    ensures b == is_alpha(c),
{
    ('a' <= c && c <= 'z') || ('A' <= c && c <= 'Z')
}

pub open spec fn is_alnum(c: char) -> bool {
    is_digit(c) || is_alpha(c)
}

pub fn is_ascii_alphanumeric(c: char) -> (b: bool)
    ensures b == is_alnum(c),
{
    is_ascii_digit(c) || is_ascii_alphabetic(c)
}

pub open spec fn is_hex(c: char) -> bool {
    is_digit(c) || ('a' <= c && c <= 'f') || ('A' <= c && c <= 'F')
}

pub fn is_ascii_hexdigit(c: char) -> (b: bool)
    ensures b == is_hex(c),
{
    is_ascii_digit(c) || ('a' <= c && c <= 'f') || ('A' <= c && c <= 'F')
}

/// `char::to_ascii_lowercase`.
pub open spec fn lower_char(c: char) -> char {
    if 'A' <= c && c <= 'Z' {
        ((c as u32) + 32) as char
    } else {
        c
    }
}

pub fn to_ascii_lower(c: char) -> (r: char)
    ensures r == lower_char(c),
{
    if 'A' <= c && c <= 'Z' {
        let x: u32 = (c as u32) + 32;
        assert(0x61 <= x <= 0x7a);
        char_from_ascii(x)
    } else {
        c
    }
}

/// The character with the given ASCII code.
fn char_from_ascii(x: u32) -> (c: char)
    requires x < 128,
    ensures c == x as char,
{
    let b: u8 = x as u8;
    b as char
}

/// `str::to_ascii_lowercase`.
pub open spec fn ascii_lower(s: Seq<char>) -> Seq<char> {
    s.map_values(|c: char| lower_char(c))
}

pub fn lower_ascii(s: &Vec<char>) -> (r: Vec<char>)
    ensures r@ == ascii_lower(s@),
{
    let mut r: Vec<char> = Vec::new();
    for i in 0..s.len()
        invariant r@ == ascii_lower(s@.take(i as int)),
    {
        r.push(to_ascii_lower(s[i]));
        assert(ascii_lower(s@.take(i + 1)) == ascii_lower(s@.take(i as int)).push(lower_char(s@[i as int])));
    }
    assert(s@.take(s.len() as int) == s@);
    r
}

// ───────────────────────────── conversion ─────────────────────────────

/// The characters of a string.
pub fn chars_of(s: &str) -> (v: Vec<char>)
    ensures v@ == s@,
{
    let mut v: Vec<char> = Vec::new();
    for c in it: s.chars()
        invariant
            v@ == it.seq().take(it.index() as int),
            it.seq() == s@,
    {
        v.push(c);
    }
    v
}

/// Collects characters into a `String` (`FromIterator<char> for String`):
/// the string holds exactly the given characters, in order.
#[verifier::external_body]
pub(crate) fn string_of(v: &[char]) -> (s: String)
    ensures s@ == v@,
{
    v.iter().collect()
}

/// A `Vec<char>` holding the characters of a literal or other `&str`.
pub fn lit(s: &str) -> (v: Vec<char>)
    ensures v@ == s@,
{
    chars_of(s)
}

// ───────────────────────────── searching ─────────────────────────────

/// `p` occurs in `s` at position `i`.
pub open spec fn matches_at(s: Seq<char>, i: int, p: Seq<char>) -> bool {
    0 <= i && i + p.len() <= s.len() && s.subrange(i, i + p.len()) == p
}

/// `str::starts_with`.
pub open spec fn starts_with(s: Seq<char>, p: Seq<char>) -> bool {
    matches_at(s, 0, p)
}

/// `str::ends_with`.
pub open spec fn ends_with(s: Seq<char>, p: Seq<char>) -> bool {
    matches_at(s, s.len() - p.len(), p)
}

/// The first position at or after `i` where `p` occurs.
pub open spec fn find_from(s: Seq<char>, p: Seq<char>, i: int) -> Option<int>
    decreases s.len() + 1 - i,
{
    if i < 0 || i + p.len() > s.len() {
        None
    } else if matches_at(s, i, p) {
        Some(i)
    } else {
        find_from(s, p, i + 1)
    }
}

/// `str::find`: the first position where `p` occurs.
pub open spec fn find(s: Seq<char>, p: Seq<char>) -> Option<int> {
    find_from(s, p, 0)
}

/// `str::contains`.
pub open spec fn contains(s: Seq<char>, p: Seq<char>) -> bool {
    find(s, p) is Some
}

pub proof fn lemma_find_from_facts(s: Seq<char>, p: Seq<char>, i: int)
    requires 0 <= i,
    ensures
        find_from(s, p, i) matches Some(k) ==> i <= k && matches_at(s, k, p)
            && forall|j: int| i <= j < k ==> !matches_at(s, j, p),
        find_from(s, p, i) is None ==> forall|j: int| i <= j ==> !matches_at(s, j, p),
    decreases s.len() + 1 - i,
{
    if i + p.len() > s.len() {
    } else if matches_at(s, i, p) {
    } else {
        lemma_find_from_facts(s, p, i + 1);
    }
}

/// A match found from `i` on is the first one from any earlier start with no match in between.
pub proof fn lemma_find_from_skip(s: Seq<char>, p: Seq<char>, i: int, j: int)
    requires
        0 <= i <= j,
        forall|k: int| i <= k < j ==> !matches_at(s, k, p),
    ensures find_from(s, p, i) == find_from(s, p, j),
    decreases j - i,
{
    if i < j {
        lemma_find_from_skip(s, p, i + 1, j);
    }
}

/// `p` occurs in `v` at position `i`.
pub fn matches_here(v: &Vec<char>, i: usize, p: &Vec<char>) -> (b: bool)
    ensures b == matches_at(v@, i as int, p@),
{
    if i > v.len() || p.len() > v.len() - i {
        return false;
    }
    let mut k: usize = 0;
    while k < p.len()
        invariant
            i + p.len() <= v.len(),
            0 <= k <= p.len(),
            forall|t: int| 0 <= t < k ==> v@[i + t] == p@[t],
        decreases p.len() - k,
    {
        if v[i + k] != p[k] {
            assert(v@.subrange(i as int, i + p.len())[k as int] != p@[k as int]);
            return false;
        }
        k = k + 1;
    }
    assert(v@.subrange(i as int, i + p.len()) =~= p@);
    true
}

/// The first position at or after `from` where `p` occurs in `v`.
pub fn find_in(v: &Vec<char>, p: &Vec<char>, from: usize) -> (r: Option<usize>)
    ensures
        r matches Some(k) ==> find_from(v@, p@, from as int) == Some(k as int),
        r is None ==> find_from(v@, p@, from as int) is None,
{
    if from > v.len() {
        return None;
    }
    let mut i = from;
    while i <= v.len() && p.len() <= v.len() - i
        invariant
            from <= i <= v.len(),
            forall|k: int| from <= k < i ==> !matches_at(v@, k, p@),
        decreases v.len() + 1 - i,
    {
        if matches_here(v, i, p) {
            proof { lemma_find_from_skip(v@, p@, from as int, i as int); }
            return Some(i);
        }
        if i == v.len() {
            proof {
                lemma_find_from_skip(v@, p@, from as int, i as int);
                assert(find_from(v@, p@, i as int) == find_from(v@, p@, i + 1));
            }
            return None;
        }
        i = i + 1;
    }
    proof {
        lemma_find_from_skip(v@, p@, from as int, i as int);
    }
    None
}

/// The first position at or after `from` holding `c`.
pub fn find_char(v: &Vec<char>, c: char, from: usize) -> (r: Option<usize>)
    ensures
        r matches Some(k) ==> find_from(v@, seq![c], from as int) == Some(k as int),
        r is None ==> find_from(v@, seq![c], from as int) is None,
{
    let mut p: Vec<char> = Vec::new();
    p.push(c);
    assert(p@ =~= seq![c]);
    find_in(v, &p, from)
}

// ───────────────────────────── slicing and building ─────────────────────────────

/// A copy of `v[a..b]`.
pub fn slice(v: &Vec<char>, a: usize, b: usize) -> (r: Vec<char>)
    requires a <= b <= v.len(),
    ensures r@ == v@.subrange(a as int, b as int),
{
    let mut r: Vec<char> = Vec::new();
    let mut i = a;
    while i < b
        invariant
            a <= i <= b <= v.len(),
            r@ == v@.subrange(a as int, i as int),
        decreases b - i,
    {
        r.push(v[i]);
        assert(v@.subrange(a as int, i + 1) == v@.subrange(a as int, i as int).push(v@[i as int]));
        i = i + 1;
    }
    r
}

/// Appends `src[a..b]` to `dst`.
pub fn push_range(dst: &mut Vec<char>, src: &Vec<char>, a: usize, b: usize)
    requires a <= b <= src.len(),
    ensures final(dst)@ == old(dst)@ + src@.subrange(a as int, b as int),
{
    let ghost d0 = dst@;
    let mut i = a;
    while i < b
        invariant
            a <= i <= b <= src.len(),
            dst@ == d0 + src@.subrange(a as int, i as int),
        decreases b - i,
    {
        dst.push(src[i]);
        assert(src@.subrange(a as int, i + 1) == src@.subrange(a as int, i as int).push(src@[i as int]));
        i = i + 1;
    }
}

/// Appends all of `src` to `dst`.
pub fn push_all(dst: &mut Vec<char>, src: &Vec<char>)
    ensures final(dst)@ == old(dst)@ + src@,
{
    push_range(dst, src, 0, src.len());
    assert(src@.subrange(0, src.len() as int) == src@);
}

/// Appends the characters of `s` to `dst`.
pub fn push_str(dst: &mut Vec<char>, s: &str)
    ensures final(dst)@ == old(dst)@ + s@,
{
    let v = chars_of(s);
    push_all(dst, &v);
}

/// Vectors hold the same characters.
pub fn same(a: &Vec<char>, b: &Vec<char>) -> (r: bool)
    ensures r == (a@ == b@),
{
    if a.len() != b.len() {
        return false;
    }
    let r = matches_here(a, 0, b);
    proof {
        if r {
            assert(a@.subrange(0, b.len() as int) == a@);
        } else {
            assert(a@.subrange(0, b.len() as int) == a@);
        }
    }
    r
}

/// `v` holds exactly the characters of `s`.
pub fn eq_str(v: &Vec<char>, s: &str) -> (r: bool)
    ensures r == (v@ == s@),
{
    let w = chars_of(s);
    same(v, &w)
}

/// `v[i..]` starts with `s`.
pub fn starts_with_at(v: &Vec<char>, i: usize, s: &str) -> (r: bool)
    ensures r == matches_at(v@, i as int, s@),
{
    let w = chars_of(s);
    matches_here(v, i, &w)
}

// ───────────────────────────── trimming ─────────────────────────────

/// `str::trim_start`.
pub open spec fn trim_start(s: Seq<char>) -> Seq<char>
    decreases s.len(),
{
    if s.len() > 0 && is_ws(s[0]) {
        trim_start(s.drop_first())
    } else {
        s
    }
}

/// `str::trim_end`.
pub open spec fn trim_end(s: Seq<char>) -> Seq<char>
    decreases s.len(),
{
    if s.len() > 0 && is_ws(s.last()) {
        trim_end(s.drop_last())
    } else {
        s
    }
}

/// `str::trim`.
pub open spec fn trim(s: Seq<char>) -> Seq<char> {
    trim_end(trim_start(s))
}

/// The number of leading white-space characters of `s.subrange(i, len)`.
pub open spec fn ws_run_end(s: Seq<char>, i: int) -> int
    decreases s.len() - i,
{
    if 0 <= i < s.len() && is_ws(s[i]) {
        ws_run_end(s, i + 1)
    } else {
        i
    }
}

pub proof fn lemma_trim_start_sub(s: Seq<char>, i: int)
    requires 0 <= i <= s.len(),
    ensures
        trim_start(s.subrange(i, s.len() as int)) == s.subrange(ws_run_end(s, i), s.len() as int),
        i <= ws_run_end(s, i) <= s.len(),
    decreases s.len() - i,
{
    let t = s.subrange(i, s.len() as int);
    if i < s.len() && is_ws(s[i]) {
        assert(t.drop_first() == s.subrange(i + 1, s.len() as int));
        lemma_trim_start_sub(s, i + 1);
    }
}

/// Where the text of `v[a..b]` begins once leading white space is skipped.
pub fn skip_ws(v: &Vec<char>, a: usize, b: usize) -> (r: usize)
    requires a <= b <= v.len(),
    ensures
        a <= r <= b,
        trim_start(v@.subrange(a as int, b as int)) == v@.subrange(r as int, b as int),
{
    let ghost s = v@.subrange(0, b as int);
    let mut i = a;
    while i < b && is_whitespace(v[i])
        invariant
            a <= i <= b <= v.len(),
            s == v@.subrange(0, b as int),
            ws_run_end(s, a as int) == ws_run_end(s, i as int),
        decreases b - i,
    {
        i = i + 1;
    }
    proof {
        lemma_trim_start_sub(s, a as int);
        assert(s.subrange(a as int, b as int) == v@.subrange(a as int, b as int));
        assert(s.subrange(i as int, b as int) == v@.subrange(i as int, b as int));
    }
    i
}

/// Where the text of `v[a..b]` ends once trailing white space is dropped.
pub fn skip_ws_back(v: &Vec<char>, a: usize, b: usize) -> (r: usize)
    requires a <= b <= v.len(),
    ensures
        a <= r <= b,
        trim_end(v@.subrange(a as int, b as int)) == v@.subrange(a as int, r as int),
{
    let mut j = b;
    while j > a && is_whitespace(v[j - 1])
        invariant
            a <= j <= b <= v.len(),
            trim_end(v@.subrange(a as int, b as int)) == trim_end(v@.subrange(a as int, j as int)),
        decreases j,
    {
        assert(v@.subrange(a as int, j as int).drop_last() == v@.subrange(a as int, j - 1));
        j = j - 1;
    }
    j
}

/// `v[a..b].trim()` as bounds `(start, end)`.
pub fn trim_bounds(v: &Vec<char>, a: usize, b: usize) -> (r: (usize, usize))
    requires a <= b <= v.len(),
    ensures
        a <= r.0 <= r.1 <= b,
        trim(v@.subrange(a as int, b as int)) == v@.subrange(r.0 as int, r.1 as int),
{
    let s = skip_ws(v, a, b);
    let e = skip_ws_back(v, s, b);
    (s, e)
}

/// `s.trim()` as a new buffer.
pub fn trimmed(v: &Vec<char>) -> (r: Vec<char>)
    ensures r@ == trim(v@),
{
    let (s, e) = trim_bounds(v, 0, v.len());
    assert(v@.subrange(0, v.len() as int) == v@);
    slice(v, s, e)
}

// ───────────────────────────── splitting and joining ─────────────────────────────

/// `str::split(c)`: the pieces between occurrences of `c`, empty ones included.
pub open spec fn split_char(s: Seq<char>, c: char) -> Seq<Seq<char>>
    decreases s.len(),
{
    match find(s, seq![c]) {
        Some(i) => if 0 <= i < s.len() {
            seq![s.subrange(0, i)] + split_char(s.subrange(i + 1, s.len() as int), c)
        } else {
            seq![s]
        },
        None => seq![s],
    }
}

/// `str::split_whitespace`: the maximal runs of non-white-space characters.
pub open spec fn split_ws(s: Seq<char>) -> Seq<Seq<char>>
    decreases s.len(),
{
    if s.len() == 0 {
        seq![]
    } else if is_ws(s[0]) {
        split_ws(s.drop_first())
    } else {
        let n = word_len(s, 0);
        proof { lemma_word_len(s, 0); }
        seq![s.subrange(0, n)] + split_ws(s.subrange(n, s.len() as int))
    }
}

/// Length of the run of non-white-space characters starting at `i`.
pub open spec fn word_len(s: Seq<char>, i: int) -> int
    decreases s.len() - i,
{
    if 0 <= i < s.len() && !is_ws(s[i]) {
        1 + word_len(s, i + 1)
    } else {
        0
    }
}

pub proof fn lemma_word_len(s: Seq<char>, i: int)
    requires 0 <= i <= s.len(),
    ensures
        0 <= word_len(s, i) <= s.len() - i,
        forall|k: int| i <= k < i + word_len(s, i) ==> !is_ws(s[k]),
        i + word_len(s, i) < s.len() ==> is_ws(s[i + word_len(s, i)]),
        i < s.len() && !is_ws(s[i]) ==> word_len(s, i) >= 1,
    decreases s.len() - i,
{
    if i < s.len() && !is_ws(s[i]) {
        lemma_word_len(s, i + 1);
    }
}

proof fn lemma_word_len_shift(s: Seq<char>, a: int, i: int)
    requires 0 <= a <= i <= s.len(),
    ensures word_len(s.subrange(a, s.len() as int), i - a) == word_len(s, i),
    decreases s.len() - i,
{
    if i < s.len() && !is_ws(s[i]) {
        lemma_word_len_shift(s, a, i + 1);
    }
}

/// The words of `v[a..]`, as `split_whitespace` gives them.
pub fn split_whitespace(v: &Vec<char>) -> (r: Vec<Vec<char>>)
    ensures
        r@.len() == split_ws(v@).len(),
        forall|k: int| 0 <= k < r@.len() ==> #[trigger] r@[k]@ == split_ws(v@)[k],
{
    let mut r: Vec<Vec<char>> = Vec::new();
    let mut i: usize = 0;
    let ghost done: Seq<Seq<char>> = seq![];
    assert(v@.subrange(0, v.len() as int) == v@);
    while i < v.len()
        invariant
            0 <= i <= v.len(),
            done + split_ws(v@.subrange(i as int, v.len() as int)) == split_ws(v@),
            r@.len() == done.len(),
            forall|k: int| 0 <= k < r@.len() ==> #[trigger] r@[k]@ == done[k],
        decreases v.len() - i,
    {
        let ghost rest = v@.subrange(i as int, v.len() as int);
        if is_whitespace(v[i]) {
            assert(rest.drop_first() == v@.subrange(i + 1, v.len() as int));
            i = i + 1;
        } else {
            let mut j = i;
            while j < v.len() && !is_whitespace(v[j])
                invariant
                    i <= j <= v.len(),
                    forall|k: int| i <= k < j ==> !is_ws(v@[k]),
                    word_len(v@, i as int) == (j - i) + word_len(v@, j as int),
                decreases v.len() - j,
            {
                j = j + 1;
            }
            proof {
                lemma_word_len_shift(v@, i as int, i as int);
                assert(word_len(v@, j as int) == 0);
                assert(rest.subrange(0, (j - i) as int) == v@.subrange(i as int, j as int));
                assert(rest.subrange((j - i) as int, rest.len() as int) == v@.subrange(j as int, v.len() as int));
                assert(split_ws(rest) == seq![v@.subrange(i as int, j as int)] + split_ws(v@.subrange(j as int, v.len() as int)));
            }
            let w = slice(v, i, j);
            r.push(w);
            proof {
                assert(done.push(v@.subrange(i as int, j as int)) + split_ws(v@.subrange(j as int, v.len() as int))
                    == done + split_ws(rest));
                done = done.push(v@.subrange(i as int, j as int));
            }
            i = j;
        }
    }
    proof {
        assert(v@.subrange(i as int, v.len() as int) =~= Seq::<char>::empty());
        assert(done + seq![] == done);
    }
    r
}

/// The pieces of `v` between occurrences of `c`, as `str::split(c)` gives them.
pub fn split_on(v: &Vec<char>, c: char) -> (r: Vec<Vec<char>>)
    ensures
        r@.len() == split_char(v@, c).len(),
        forall|k: int| 0 <= k < r@.len() ==> #[trigger] r@[k]@ == split_char(v@, c)[k],
{
    let mut r: Vec<Vec<char>> = Vec::new();
    let mut pos: usize = 0;
    let ghost done: Seq<Seq<char>> = seq![];
    assert(v@.subrange(0, v.len() as int) == v@);
    loop
        invariant
            pos <= v.len(),
            done + split_char(v@.subrange(pos as int, v.len() as int), c) == split_char(v@, c),
            r@.len() == done.len(),
            forall|k: int| 0 <= k < r@.len() ==> #[trigger] r@[k]@ == done[k],
        decreases v.len() - pos,
    {
        let ghost rest = v@.subrange(pos as int, v.len() as int);
        proof {
            lemma_find_suffix(v@, seq![c], pos as int);
            lemma_find_from_facts(v@, seq![c], pos as int);
        }
        match find_char(v, c, pos) {
            Some(k) => {
                proof {
                    assert(rest.subrange(0, k - pos) == v@.subrange(pos as int, k as int));
                    assert(rest.subrange(k - pos + 1, rest.len() as int) == v@.subrange(k + 1, v.len() as int));
                }
                let piece = slice(v, pos, k);
                r.push(piece);
                proof {
                    assert(split_char(rest, c) == seq![v@.subrange(pos as int, k as int)]
                        + split_char(v@.subrange(k + 1, v.len() as int), c));
                    assert(done.push(v@.subrange(pos as int, k as int)) + split_char(v@.subrange(k + 1, v.len() as int), c)
                        == done + split_char(rest, c));
                    done = done.push(v@.subrange(pos as int, k as int));
                }
                pos = k + 1;
            },
            None => {
                let piece = slice(v, pos, v.len());
                r.push(piece);
                proof {
                    assert(split_char(rest, c) == seq![rest]);
                    assert(done + seq![rest] == done.push(rest));
                }
                return r;
            },
        }
    }
}

/// `pieces.join(sep)`.
pub open spec fn join(pieces: Seq<Seq<char>>, sep: Seq<char>) -> Seq<char>
    decreases pieces.len(),
{
    if pieces.len() == 0 {
        seq![]
    } else if pieces.len() == 1 {
        pieces[0]
    } else {
        join(pieces.drop_last(), sep) + sep + pieces.last()
    }
}

/// Joins the pieces with `sep` between them.
pub fn join_with(pieces: &Vec<Vec<char>>, sep: &str) -> (r: Vec<char>)
    ensures r@ == join(pieces@.map_values(|p: Vec<char>| p@), sep@),
{
    let ghost views = pieces@.map_values(|p: Vec<char>| p@);
    let mut r: Vec<char> = Vec::new();
    let sepv = chars_of(sep);
    for i in 0..pieces.len()
        invariant
            views == pieces@.map_values(|p: Vec<char>| p@),
            sepv@ == sep@,
            r@ == join(views.take(i as int), sep@),
    {
        proof {
            assert(views.take(i + 1).drop_last() == views.take(i as int));
            assert(views.take(i + 1).last() == pieces@[i as int]@);
        }
        if i > 0 {
            push_all(&mut r, &sepv);
        } else {
            assert(views.take(0) =~= Seq::<Seq<char>>::empty());
        }
        push_all(&mut r, &pieces[i]);
    }
    assert(views.take(pieces.len() as int) == views);
    r
}

/// `s.replace(from, to)` for a non-empty `from`: every non-overlapping
/// occurrence, scanning left to right, is replaced.
pub open spec fn replace_all(s: Seq<char>, from: Seq<char>, to: Seq<char>) -> Seq<char>
    decreases s.len(),
{
    if from.len() == 0 {
        s
    } else {
        match find(s, from) {
            Some(i) => if 0 <= i && i + from.len() <= s.len() {
                s.subrange(0, i) + to + replace_all(s.subrange(i + from.len(), s.len() as int), from, to)
            } else {
                s
            },
            None => s,
        }
    }
}

proof fn lemma_find_shift(s: Seq<char>, p: Seq<char>, a: int, i: int)
    requires 0 <= a <= i <= s.len(),
    ensures
        find_from(s.subrange(a, s.len() as int), p, i - a) == (match find_from(s, p, i) {
            Some(k) => Some(k - a),
            None => None::<int>,
        }),
    decreases s.len() + 1 - i,
{
    let t = s.subrange(a, s.len() as int);
    if i + p.len() > s.len() {
    } else {
        assert(t.subrange(i - a, i - a + p.len()) == s.subrange(i, i + p.len()));
        if i == s.len() {
            assert(s.subrange(i, i) =~= p);
        }
        if !matches_at(s, i, p) {
            lemma_find_shift(s, p, a, i + 1);
        }
    }
}

/// The first position of `p` in `v[from..]`, relative to the whole of `v`.
pub proof fn lemma_find_suffix(s: Seq<char>, p: Seq<char>, a: int)
    requires 0 <= a <= s.len(),
    ensures
        find(s.subrange(a, s.len() as int), p) == (match find_from(s, p, a) {
            Some(k) => Some(k - a),
            None => None::<int>,
        }),
{
    lemma_find_shift(s, p, a, a);
}

/// Replacing in `q + s` when no occurrence of `from` starts inside `q`:
/// `q` is kept and the replacing goes on in `s`.
pub proof fn lemma_replace_all_prefix(q: Seq<char>, s: Seq<char>, from: Seq<char>, to: Seq<char>)
    requires
        from.len() > 0,
        forall|j: int| 0 <= j < q.len() ==> !matches_at(q + s, j, from),
    ensures
        replace_all(q + s, from, to) == q + replace_all(s, from, to),
{
    let qs = q + s;
    let n = q.len() as int;
    lemma_find_from_skip(qs, from, 0, n);
    lemma_find_shift(qs, from, n, n);
    assert(qs.subrange(n, qs.len() as int) =~= s);
    lemma_find_from_facts(s, from, 0);
    match find(s, from) {
        Some(i) => {
            assert(qs.subrange(0, n + i) =~= q + s.subrange(0, i));
            assert(qs.subrange(n + i + from.len(), qs.len() as int) =~= s.subrange(i + from.len(), s.len() as int));
        },
        None => {},
    }
}

/// Replacing in a text that starts with `from`: the start becomes `to`.
pub proof fn lemma_replace_all_at_start(s: Seq<char>, from: Seq<char>, to: Seq<char>)
    requires
        from.len() > 0,
    ensures
        replace_all(from + s, from, to) == to + replace_all(s, from, to),
{
    let fs = from + s;
    assert(fs.subrange(0, from.len() as int) =~= from);
    assert(fs.subrange(0, 0) =~= Seq::<char>::empty());
    assert(fs.subrange(from.len() as int, fs.len() as int) =~= s);
}

/// `s.replace(from, to)`.
pub fn replace(v: &Vec<char>, from: &str, to: &str) -> (r: Vec<char>)
    requires from@.len() > 0,
    ensures r@ == replace_all(v@, from@, to@),
{
    let fv = chars_of(from);
    let tv = chars_of(to);
    let mut r: Vec<char> = Vec::new();
    let mut i: usize = 0;
    assert(v@.subrange(0, v.len() as int) == v@);
    while i <= v.len()
        invariant
            i <= v.len(),
            fv@ == from@,
            tv@ == to@,
            fv@.len() > 0,
            r@ + replace_all(v@.subrange(i as int, v.len() as int), from@, to@) == replace_all(v@, from@, to@),
        decreases v.len() - i,
    {
        let ghost rest = v@.subrange(i as int, v.len() as int);
        proof { lemma_find_suffix(v@, from@, i as int); }
        match find_in(v, &fv, i) {
            Some(k) => {
                proof {
                    lemma_find_from_facts(v@, from@, i as int);
                    assert(rest.subrange(0, k - i) == v@.subrange(i as int, k as int));
                    assert(rest.subrange(k - i + from@.len(), rest.len() as int)
                        == v@.subrange(k + fv.len(), v.len() as int));
                }
                push_range(&mut r, v, i, k);
                push_all(&mut r, &tv);
                i = k + fv.len();
            },
            None => {
                push_range(&mut r, v, i, v.len());
                return r;
            },
        }
    }
    r
}

} // verus!

verus! {

/// `a` followed by `b`, as a new `String`.
pub fn concat2(a: &str, b: &str) -> (r: String)
    ensures r@ == a@ + b@,
{
    let mut v = chars_of(a);
    push_str(&mut v, b);
    string_of(&v)
}

} // verus!

verus! {

/// Scanning from `i` with nesting `depth`, the position of the `close` that
/// brings the depth to zero (`open` raises it, `close` lowers it).
pub open spec fn close_index(s: Seq<char>, i: int, depth: int, open: char, close: char) -> Option<int>
    decreases s.len() - i,
{
    if i < 0 || i >= s.len() {
        None
    } else if s[i] == open {
        close_index(s, i + 1, depth + 1, open, close)
    } else if s[i] == close {
        if depth - 1 == 0 {
            Some(i)
        } else {
            close_index(s, i + 1, depth - 1, open, close)
        }
    } else {
        close_index(s, i + 1, depth, open, close)
    }
}

pub proof fn lemma_close_index(s: Seq<char>, i: int, depth: int, open: char, close: char)
    requires 0 <= i,
    ensures close_index(s, i, depth, open, close) matches Some(k) ==> i <= k < s.len() && s[k] == close,
    decreases s.len() - i,
{
    if i < s.len() {
        lemma_close_index(s, i + 1, depth + 1, open, close);
        lemma_close_index(s, i + 1, depth - 1, open, close);
        lemma_close_index(s, i + 1, depth, open, close);
    }
}

pub proof fn lemma_close_index_shift(s: Seq<char>, a: int, i: int, depth: int, open: char, close: char)
    requires 0 <= a <= i <= s.len(),
    ensures
        close_index(s.subrange(a, s.len() as int), i - a, depth, open, close) == (match close_index(s, i, depth, open, close) {
            Some(k) => Some(k - a),
            None => None::<int>,
        }),
    decreases s.len() - i,
{
    let t = s.subrange(a, s.len() as int);
    if i < s.len() {
        assert(t[i - a] == s[i]);
        lemma_close_index_shift(s, a, i + 1, depth + 1, open, close);
        lemma_close_index_shift(s, a, i + 1, depth - 1, open, close);
        lemma_close_index_shift(s, a, i + 1, depth, open, close);
    }
}

/// The matching `close` for an `open` already passed, searching `v[from..]`
/// (the depth starts at one). Positions are relative to `from`.
pub fn matching_close(v: &Vec<char>, from: usize, open: char, close: char) -> (r: Option<usize>)
    requires from <= v.len(),
    ensures
        r matches Some(k) ==> from + k < v.len() && close_index(v@.subrange(from as int, v@.len() as int), 0, 1, open, close) == Some(k as int),
        r is None ==> close_index(v@.subrange(from as int, v@.len() as int), 0, 1, open, close) is None,
{
    let mut depth: i128 = 1;
    let mut i = from;
    proof { lemma_close_index_shift(v@, from as int, from as int, 1, open, close); }
    while i < v.len()
        invariant
            from <= i <= v.len(),
            depth >= 1,
            depth <= i - from + 1,
            close_index(v@, from as int, 1, open, close) == close_index(v@, i as int, depth as int, open, close),
        decreases v.len() - i,
    {
        let c = v[i];
        if c == open {
            depth = depth + 1;
        } else if c == close {
            if depth - 1 == 0 {
                assert(close_index(v@, i as int, depth as int, open, close) == Some(i as int));
                proof { lemma_close_index_shift(v@, from as int, from as int, 1, open, close); }
                return Some(i - from);
            }
            depth = depth - 1;
        }
        i = i + 1;
    }
    proof { lemma_close_index_shift(v@, from as int, from as int, 1, open, close); }
    None
}

} // verus!

verus! {

/// Whether `list` holds a string equal to `s`.
pub fn contains_string(list: &Vec<String>, s: &Vec<char>) -> (r: bool)
    ensures r == list@.map_values(|t: String| t@).contains(s@),
{
    let ghost views = list@.map_values(|t: String| t@);
    for i in 0..list.len()
        invariant
            views == list@.map_values(|t: String| t@),
            forall|k: int| 0 <= k < i ==> views[k] != s@,
    {
        let w = chars_of(list[i].as_str());
        if same(&w, s) {
            assert(views[i as int] == s@);
            return true;
        }
    }
    false
}

} // verus!

verus! {

/// `str::eq_ignore_ascii_case`.
pub open spec fn eq_ignore_case(a: Seq<char>, b: Seq<char>) -> bool {
    ascii_lower(a) == ascii_lower(b)
}

pub fn eq_ignore_ascii_case(a: &Vec<char>, b: &str) -> (r: bool)
    ensures r == eq_ignore_case(a@, b@),
{
    let la = lower_ascii(a);
    let bv = chars_of(b);
    let lb = lower_ascii(&bv);
    same(&la, &lb)
}

/// What `str::to_lowercase` gives for `s`: Unicode's lowercase mapping,
/// character by character, with the context rule for a final capital sigma.
pub uninterp spec fn unicode_lowercase(s: Seq<char>) -> Seq<char>;

/// Every character of `s` is ASCII.
pub open spec fn all_ascii(s: Seq<char>) -> bool {
    forall|i: int| 0 <= i < s.len() ==> (s[i] as u32) < 0x80
}

/// The lowercase of `s`: the ASCII lowercase when `s` is ASCII, else
/// Unicode's lowercase mapping.
pub open spec fn lowercase(s: Seq<char>) -> Seq<char> {
    if all_ascii(s) { ascii_lower(s) } else { unicode_lowercase(s) }
}

/// `str::to_lowercase`. The contract names the result, a function of the
/// characters alone, and states what std's documentation gives of it: on
/// ASCII text it is the ASCII lowercase. Beyond ASCII the mapping is
/// Unicode's and is not stated here.
#[verifier::external_body]
pub(crate) fn to_lowercase(s: &str) -> (r: String)
    ensures
        r@ == unicode_lowercase(s@),
        all_ascii(s@) ==> r@ == ascii_lower(s@),
{
    s.to_lowercase()
}

} // verus!
