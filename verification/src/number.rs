//! Which texts `str::parse::<f64>` accepts, following the grammar in the
//! documentation of `f64`'s `FromStr`:
//! `Sign? ( 'inf' | 'infinity' | 'nan' | Number )`, with
//! `Number ::= ( Digit+ | Digit+ '.' Digit* | Digit* '.' Digit+ ) Exp?`,
//! `Exp ::= 'e' Sign? Digit+` (letters in any case).
use vstd::prelude::*;
use crate::text::{ascii_digit, is_ascii_digit, sub_chars};

verus! {

pub open spec fn all_digits(s: Seq<char>, a: int, b: int) -> bool {
    forall|k: int| a <= k < b ==> is_ascii_digit(#[trigger] s[k])
}

/// Index of the first character of `s` from `i` on that satisfies `e/E`, or `s.len()`.
pub open spec fn first_exp(s: Seq<char>, i: int) -> int
    decreases s.len() - i,
{
    if i >= s.len() || i < 0 {
        s.len() as int
    } else if s[i] == 'e' || s[i] == 'E' {
        i
    } else {
        first_exp(s, i + 1)
    }
}

pub open spec fn first_dot(s: Seq<char>, i: int) -> int
    decreases s.len() - i,
{
    if i >= s.len() || i < 0 {
        s.len() as int
    } else if s[i] == '.' {
        i
    } else {
        first_dot(s, i + 1)
    }
}

/// `Digit+ | Digit+ '.' Digit* | Digit* '.' Digit+`
pub open spec fn valid_mantissa(m: Seq<char>) -> bool {
    let d = first_dot(m, 0);
    &&& all_digits(m, 0, d)
    &&& (d == m.len() || all_digits(m, d + 1, m.len() as int))
    &&& (if d < m.len() { m.len() >= 2 } else { m.len() >= 1 })
}

/// `Sign? Digit+`
pub open spec fn valid_exponent(x: Seq<char>) -> bool {
    if x.len() > 0 && (x[0] == '+' || x[0] == '-') {
        x.len() >= 2 && all_digits(x, 1, x.len() as int)
    } else {
        x.len() >= 1 && all_digits(x, 0, x.len() as int)
    }
}

pub open spec fn lower(c: char) -> char {
    if 'A' <= c && c <= 'Z' { ((c as u32) + 32) as char } else { c }
}

/// Equal ignoring ASCII case.
pub open spec fn eq_ignore_ascii_case(a: Seq<char>, b: Seq<char>) -> bool {
    a.len() == b.len() && forall|k: int| 0 <= k < a.len() ==> lower(#[trigger] a[k]) == lower(b[k])
}

pub open spec fn is_special_float(b: Seq<char>) -> bool {
    eq_ignore_ascii_case(b, seq!['i', 'n', 'f']) || eq_ignore_ascii_case(b, seq!['i', 'n', 'f', 'i', 'n', 'i', 't', 'y'])
        || eq_ignore_ascii_case(b, seq!['n', 'a', 'n'])
}

/// Whether `s` is accepted as an `f64`.
pub open spec fn is_float_literal(s: Seq<char>) -> bool {
    let body = if s.len() > 0 && (s[0] == '+' || s[0] == '-') { s.skip(1) } else { s };
    let e = first_exp(body, 0);
    is_special_float(body) || (valid_mantissa(body.take(e)) && (e == body.len() || valid_exponent(body.skip(e + 1))))
}

fn all_digits_exec(s: &[char], a: usize, b: usize) -> (r: bool)
    requires
        a <= b <= s@.len(),
    ensures
        r == all_digits(s@, a as int, b as int),
{
    let mut i = a;
    while i < b
        invariant
            a <= i <= b <= s@.len(),
            all_digits(s@, a as int, i as int),
        decreases b - i,
    {
        if !ascii_digit(s[i]) {
            return false;
        }
        i = i + 1;
    }
    true
}

fn first_exp_exec(s: &[char]) -> (r: usize)
    ensures
        r == first_exp(s@, 0),
{
    let mut i: usize = 0;
    while i < s.len()
        invariant
            i <= s@.len(),
            first_exp(s@, 0) == first_exp(s@, i as int),
        decreases s.len() - i,
    {
        if s[i] == 'e' || s[i] == 'E' {
            return i;
        }
        i = i + 1;
    }
    i
}

fn first_dot_exec(s: &[char]) -> (r: usize)
    ensures
        r == first_dot(s@, 0),
{
    let mut i: usize = 0;
    while i < s.len()
        invariant
            i <= s@.len(),
            first_dot(s@, 0) == first_dot(s@, i as int),
        decreases s.len() - i,
    {
        if s[i] == '.' {
            return i;
        }
        i = i + 1;
    }
    i
}

pub proof fn lemma_first_bounds(s: Seq<char>, i: int)
    requires
        0 <= i <= s.len(),
    ensures
        i <= first_exp(s, i) <= s.len(),
        i <= first_dot(s, i) <= s.len(),
    decreases s.len() - i,
{
    if i < s.len() {
        lemma_first_bounds(s, i + 1);
    }
}

pub fn lower_char(c: char) -> (r: char)
    ensures
        r == lower(c),
{
    if 'A' <= c && c <= 'Z' {
        let u = (c as u32) + 32;
        proof {
            assert(0x41 <= u - 32 <= 0x5a);
        }
        char_from_ascii(u)
    } else {
        c
    }
}

/// The ASCII character with the given code (`char::from_u32`).
fn char_from_ascii(u: u32) -> (r: char)
    requires
        u < 128,
    ensures
        r == u as char,
{
    let b = u as u8;
    b as char
}

/// Equality ignoring ASCII case, against a word given by its characters.
pub fn eq_ignore_case(a: &[char], b: &[char]) -> (r: bool)
    ensures
        r == eq_ignore_ascii_case(a@, b@),
{
    if a.len() != b.len() {
        return false;
    }
    let mut i: usize = 0;
    while i < a.len()
        invariant
            a@.len() == b@.len(),
            i <= a@.len(),
            forall|k: int| 0 <= k < i ==> lower(#[trigger] a@[k]) == lower(b@[k]),
        decreases a.len() - i,
    {
        if lower_char(a[i]) != lower_char(b[i]) {
            return false;
        }
        i = i + 1;
    }
    true
}

/// Whether `s` is accepted as an `f64` number.
pub fn check_float_literal(s: &[char]) -> (r: bool)
    ensures
        r == is_float_literal(s@),
{
    let signed = s.len() > 0 && (s[0] == '+' || s[0] == '-');
    let body: Vec<char> = if signed { sub_chars(s, 1, s.len()) } else { sub_chars(s, 0, s.len()) };
    assert(body@ =~= (if s@.len() > 0 && (s@[0] == '+' || s@[0] == '-') { s@.skip(1) } else { s@ }));
    let inf = ['i', 'n', 'f'];
    let infinity = ['i', 'n', 'f', 'i', 'n', 'i', 't', 'y'];
    let nan = ['n', 'a', 'n'];
    assert(inf@ =~= seq!['i', 'n', 'f']);
    assert(infinity@ =~= seq!['i', 'n', 'f', 'i', 'n', 'i', 't', 'y']);
    assert(nan@ =~= seq!['n', 'a', 'n']);
    if eq_ignore_case(body.as_slice(), inf.as_slice()) || eq_ignore_case(body.as_slice(), infinity.as_slice())
        || eq_ignore_case(body.as_slice(), nan.as_slice()) {
        return true;
    }
    let e = first_exp_exec(body.as_slice());
    proof { lemma_first_bounds(body@, 0); }
    let mantissa: Vec<char> = sub_chars(body.as_slice(), 0, e);
    assert(mantissa@ =~= body@.take(e as int));
    let d = first_dot_exec(mantissa.as_slice());
    proof { lemma_first_bounds(mantissa@, 0); }
    let mut ok = all_digits_exec(mantissa.as_slice(), 0, d);
    if d < mantissa.len() {
        ok = ok && all_digits_exec(mantissa.as_slice(), d + 1, mantissa.len()) && mantissa.len() >= 2;
    } else {
        ok = ok && mantissa.len() >= 1;
    }
    if !ok {
        return false;
    }
    if e == body.len() {
        return true;
    }
    let x: Vec<char> = sub_chars(body.as_slice(), e + 1, body.len());
    assert(x@ =~= body@.skip(e + 1));
    if x.len() > 0 && (x[0] == '+' || x[0] == '-') {
        x.len() >= 2 && all_digits_exec(x.as_slice(), 1, x.len())
    } else {
        x.len() >= 1 && all_digits_exec(x.as_slice(), 0, x.len())
    }
}

} // verus!
