//! Character-level helpers shared by the lexer, the parser and the
//! documentation builders.
use vstd::prelude::*;

verus! {

broadcast use vstd::string::group_string_axioms;

/// The characters of `s`, in order.
pub fn str_to_chars(s: &str) -> (r: Vec<char>)
    ensures
        r@ == s@,
{
    let mut r: Vec<char> = Vec::new();
    for c in it: s.chars()
        invariant
            r@ == it.seq().take(it.index() as int),
            it.seq() == s@,
    {
        r.push(c);
    }
    r
}

/// Appends one character (`String::push`).
#[verifier::external_body]
pub(crate) fn string_push(s: &mut String, c: char)
    ensures
        final(s)@ == old(s)@.push(c),
{
    s.push(c);
}

/// Appends a string slice.
pub(crate) fn string_push_str(s: &mut String, t: &str)
    ensures
        final(s)@ == old(s)@ + t@,
{
    s.append(t);
}

/// A string made of the given characters.
pub fn chars_to_string(v: &[char]) -> (r: String)
    ensures
        r@ == v@,
{
    let mut r = String::new();
    let mut i: usize = 0;
    while i < v.len()
        invariant
            i <= v.len(),
            r@ == v@.take(i as int),
        decreases v.len() - i,
    {
        string_push(&mut r, v[i]);
        assert(v@.take(i + 1) == v@.take(i as int).push(v@[i as int]));
        i = i + 1;
    }
    assert(v@.take(v.len() as int) == v@);
    r
}

/// An owned copy of a string slice.
pub fn to_owned_string(s: &str) -> (r: String)
    ensures
        r@ == s@,
{
    let mut r = String::new();
    string_push_str(&mut r, s);
    r
}

/// Whether two character sequences are equal.
pub fn chars_eq(a: &[char], b: &[char]) -> (r: bool)
    ensures
        r == (a@ == b@),
{
    if a.len() != b.len() {
        return false;
    }
    let mut i: usize = 0;
    while i < a.len()
        invariant
            a.len() == b.len(),
            i <= a.len(),
            forall|j: int| 0 <= j < i ==> a@[j] == b@[j],
        decreases a.len() - i,
    {
        if a[i] != b[i] {
            return false;
        }
        i = i + 1;
    }
    assert(a@ =~= b@);
    true
}

/// Whether a character sequence spells the given string slice.
pub fn chars_eq_str(a: &[char], s: &str) -> (r: bool)
    ensures
        r == (a@ == s@),
{
    let b = str_to_chars(s);
    chars_eq(a, b.as_slice())
}

/// Whether two string slices are equal.
pub fn str_eq(a: &str, b: &str) -> (r: bool)
    ensures
        r == (a@ == b@),
{
    let x = str_to_chars(a);
    chars_eq_str(x.as_slice(), b)
}

/// Whether `s` starts with `prefix`.
pub open spec fn has_prefix(s: Seq<char>, prefix: Seq<char>) -> bool {
    prefix.len() <= s.len() && s.take(prefix.len() as int) == prefix
}

/// Whether `s` ends with `suffix`.
pub open spec fn has_suffix(s: Seq<char>, suffix: Seq<char>) -> bool {
    suffix.len() <= s.len() && s.skip(s.len() - suffix.len()) == suffix
}

/// Whether `pat` occurs in `s` starting at index `i`.
pub open spec fn occurs_at(s: Seq<char>, pat: Seq<char>, i: int) -> bool {
    0 <= i && i + pat.len() <= s.len() && s.subrange(i, i + pat.len()) == pat
}

/// Whether the characters of `v` from index `i` spell `pat`.
pub fn chars_occur_at(v: &[char], pat: &[char], i: usize) -> (r: bool)
    ensures
        r == occurs_at(v@, pat@, i as int),
{
    if i > v.len() || pat.len() > v.len() - i {
        return false;
    }
    let mut j: usize = 0;
    while j < pat.len()
        invariant
            i + pat.len() <= v.len(),
            j <= pat.len(),
            forall|k: int| 0 <= k < j ==> v@[i + k] == pat@[k],
        decreases pat.len() - j,
    {
        if v[i + j] != pat[j] {
            assert(v@.subrange(i as int, i + pat.len())[j as int] != pat@[j as int]);
            return false;
        }
        j = j + 1;
    }
    assert(v@.subrange(i as int, i + pat.len()) =~= pat@);
    true
}

/// The elements of `list` joined by `sep`.
pub open spec fn seq_join(list: Seq<Seq<char>>, sep: Seq<char>) -> Seq<char>
    decreases list.len(),
{
    if list.len() == 0 {
        seq![]
    } else if list.len() == 1 {
        list[0]
    } else {
        seq_join(list.drop_last(), sep) + sep + list.last()
    }
}

/// The views of a sequence of string slices.
pub open spec fn str_views(list: Seq<&str>) -> Seq<Seq<char>> {
    list.map_values(|s: &str| s@)
}

/// Joins string slices with a separator.
pub fn join_strs(list: &[&str], sep: &str) -> (r: String)
    ensures
        r@ == seq_join(str_views(list@), sep@),
{
    let mut r = String::new();
    let ghost views = str_views(list@);
    let mut i: usize = 0;
    while i < list.len()
        invariant
            i <= list.len(),
            views == str_views(list@),
            r@ == seq_join(views.take(i as int), sep@),
        decreases list.len() - i,
    {
        if i != 0 {
            string_push_str(&mut r, sep);
        }
        string_push_str(&mut r, list[i]);
        assert(views.take(i + 1).drop_last() =~= views.take(i as int));
        i = i + 1;
    }
    assert(views.take(list.len() as int) =~= views);
    r
}

/// `char::is_whitespace`: the Unicode White_Space property.
pub open spec fn is_ws(c: char) -> bool {
    let u = c as u32;
    (0x9 <= u && u <= 0xD) || u == 0x20 || u == 0x85 || u == 0xA0 || u == 0x1680
        || (0x2000 <= u && u <= 0x200A) || u == 0x2028 || u == 0x2029 || u == 0x202F
        || u == 0x205F || u == 0x3000
}

/// Whether `c` has the Unicode White_Space property.
pub fn is_whitespace(c: char) -> (r: bool)
    ensures
        r == is_ws(c),
{
    let u = c as u32;
    (0x9 <= u && u <= 0xD) || u == 0x20 || u == 0x85 || u == 0xA0 || u == 0x1680
        || (0x2000 <= u && u <= 0x200A) || u == 0x2028 || u == 0x2029 || u == 0x202F
        || u == 0x205F || u == 0x3000
}

pub open spec fn is_ascii_alpha(c: char) -> bool {
    ('a' <= c && c <= 'z') || ('A' <= c && c <= 'Z')
}

pub open spec fn is_ascii_digit(c: char) -> bool {
    '0' <= c && c <= '9'
}

/// ASCII letter, digit or underscore.
pub open spec fn is_ident_char(c: char) -> bool {
    is_ascii_alpha(c) || is_ascii_digit(c) || c == '_'
}

pub fn ascii_alpha(c: char) -> (r: bool)
    ensures
        r == is_ascii_alpha(c),
{
    ('a' <= c && c <= 'z') || ('A' <= c && c <= 'Z')
}

pub fn ascii_digit(c: char) -> (r: bool)
    ensures
        r == is_ascii_digit(c),
{
    '0' <= c && c <= '9'
}

pub fn ident_char(c: char) -> (r: bool)
    ensures
        r == is_ident_char(c),
{
    ascii_alpha(c) || ascii_digit(c) || c == '_'
}

/// A copy of `s[a..b]`.
pub fn sub_chars(s: &[char], a: usize, b: usize) -> (r: Vec<char>)
    requires
        a <= b <= s@.len(),
    ensures
        r@ == s@.subrange(a as int, b as int),
{
    let mut r: Vec<char> = Vec::new();
    let mut i = a;
    while i < b
        invariant
            a <= i <= b <= s@.len(),
            r@ == s@.subrange(a as int, i as int),
        decreases b - i,
    {
        r.push(s[i]);
        assert(s@.subrange(a as int, i + 1) =~= s@.subrange(a as int, i as int).push(s@[i as int]));
        i = i + 1;
    }
    r
}

/// The number of bytes that UTF-8 takes for `c`.
pub open spec fn char_utf8_len(c: char) -> nat {
    let u = c as u32;
    if u < 0x80 { 1 } else if u < 0x800 { 2 } else if u < 0x10000 { 3 } else { 4 }
}

/// The number of bytes that UTF-8 takes for `s` (what `str::len` returns).
pub open spec fn utf8_len(s: Seq<char>) -> nat
    decreases s.len(),
{
    if s.len() == 0 { 0 } else { utf8_len(s.drop_last()) + char_utf8_len(s.last()) }
}

pub fn char_len_utf8(c: char) -> (r: usize)
    ensures
        r == char_utf8_len(c),
{
    let u = c as u32;
    if u < 0x80 { 1 } else if u < 0x800 { 2 } else if u < 0x10000 { 3 } else { 4 }
}

pub proof fn lemma_utf8_len_ge(s: Seq<char>)
    ensures
        utf8_len(s) >= s.len(),
        utf8_len(s) <= 4 * s.len(),
    decreases s.len(),
{
    if s.len() > 0 {
        lemma_utf8_len_ge(s.drop_last());
    }
}

pub proof fn lemma_utf8_len_push(s: Seq<char>, c: char)
    ensures
        utf8_len(s.push(c)) == utf8_len(s) + char_utf8_len(c),
{
    assert(s.push(c).drop_last() =~= s);
}

/// The UTF-8 length of a string, saturated at `u32::MAX`.
pub fn utf8_len_u32(s: &str) -> (r: u32)
    ensures
        r == if utf8_len(s@) <= u32::MAX { utf8_len(s@) } else { u32::MAX as nat },
{
    let v = str_to_chars(s);
    let mut n: u64 = 0;
    let mut i: usize = 0;
    while i < v.len()
        invariant
            i <= v@.len(),
            n == if utf8_len(v@.take(i as int)) <= u32::MAX { utf8_len(v@.take(i as int)) } else { u32::MAX as nat },
        decreases v.len() - i,
    {
        let w = char_len_utf8(v[i]) as u64;
        proof {
            assert(v@.take(i + 1) =~= v@.take(i as int).push(v@[i as int]));
            lemma_utf8_len_push(v@.take(i as int), v@[i as int]);
        }
        if n + w > u32::MAX as u64 {
            n = u32::MAX as u64;
        } else {
            n = n + w;
        }
        i = i + 1;
    }
    assert(v@.take(v.len() as int) =~= v@);
    n as u32
}

/// The Unicode lower-case form of a text, as `str::to_lowercase` gives it.
pub uninterp spec fn lowercase_of(s: Seq<char>) -> Seq<char>;

/// The ASCII lower-case form of a character: `A`-`Z` become `a`-`z`.
pub open spec fn ascii_lower(c: char) -> char {
    if 'A' <= c && c <= 'Z' { ((c as u32) + 32) as char } else { c }
}

/// Every character of the text is ASCII.
pub open spec fn all_ascii(s: Seq<char>) -> bool {
    forall|i: int| 0 <= i < s.len() ==> ((#[trigger] s[i]) as u32) < 0x80
}

/// `str::to_lowercase`: the text mapped to lower case by the Unicode
/// Lowercase mapping. The contract names the result, and states the ASCII
/// case, where the mapping takes `A`-`Z` to `a`-`z` and keeps every other
/// character; the rest of the Unicode tables are not restated.
#[verifier::external_body]
pub(crate) fn to_lowercase(s: &str) -> (r: String)
    ensures
        r@ == lowercase_of(s@),
        all_ascii(s@) ==> r@ == s@.map_values(|c: char| ascii_lower(c)),
{
    s.to_lowercase()
}


/// UTF-8 lengths add up over a concatenation.
pub proof fn lemma_utf8_len_concat(a: Seq<char>, b: Seq<char>)
    ensures
        utf8_len(a + b) == utf8_len(a) + utf8_len(b),
    decreases b.len(),
{
    if b.len() > 0 {
        lemma_utf8_len_concat(a, b.drop_last());
        assert((a + b).drop_last() =~= a + b.drop_last());
    } else {
        assert(a + b =~= a);
    }
}

/// A part of a text takes no more UTF-8 bytes than the whole.
pub proof fn lemma_utf8_len_sub(v: Seq<char>, a: int, b: int)
    requires
        0 <= a <= b <= v.len(),
    ensures
        utf8_len(v.subrange(a, b)) <= utf8_len(v),
        utf8_len(v.take(b)) == utf8_len(v.take(a)) + utf8_len(v.subrange(a, b)),
{
    lemma_utf8_len_concat(v.take(a), v.subrange(a, b));
    lemma_utf8_len_concat(v.take(b), v.skip(b));
    assert(v.take(a) + v.subrange(a, b) =~= v.take(b));
    assert(v.take(b) + v.skip(b) =~= v);
}

/// The number of UTF-8 bytes of `v[a..b]`.
pub fn utf8_count(v: &[char], a: usize, b: usize) -> (r: usize)
    requires
        a <= b <= v@.len(),
        utf8_len(v@) <= usize::MAX,
    ensures
        r == utf8_len(v@.subrange(a as int, b as int)),
{
    proof {
        lemma_utf8_len_sub(v@, a as int, b as int);
    }
    let mut n: usize = 0;
    let mut i: usize = a;
    while i < b
        invariant
            a <= i <= b <= v@.len(),
            utf8_len(v@.subrange(a as int, b as int)) <= usize::MAX,
            n == utf8_len(v@.subrange(a as int, i as int)),
        decreases b - i,
    {
        proof {
            assert(v@.subrange(a as int, i + 1) =~= v@.subrange(a as int, i as int).push(v@[i as int]));
            lemma_utf8_len_push(v@.subrange(a as int, i as int), v@[i as int]);
            lemma_utf8_len_sub(v@.subrange(a as int, b as int), 0, i + 1 - a);
            assert(v@.subrange(a as int, b as int).subrange(0, i + 1 - a) =~= v@.subrange(a as int, i + 1));
        }
        n = n + char_len_utf8(v[i]);
        i = i + 1;
    }
    n
}

/// `char::is_alphanumeric`: the Unicode Alphabetic or Numeric property.
pub uninterp spec fn alphanumeric(c: char) -> bool;

/// `char::is_alphanumeric`. The contract names the result and states the
/// ASCII case (letters and digits); the Unicode tables behind the rest are
/// not restated.
#[verifier::external_body]
pub(crate) fn char_is_alphanumeric(c: char) -> (r: bool)
    ensures
        r == alphanumeric(c),
        (c as u32) < 0x80 ==> (r <==> (is_ascii_alpha(c) || is_ascii_digit(c))),
{
    c.is_alphanumeric()
}


/// Whether the UTF-8 length of a text stays below `usize::MAX`.
pub fn utf8_len_below_max(v: &[char]) -> (r: bool)
    ensures
        r == (utf8_len(v@) < usize::MAX),
{
    let mut n: usize = 0;
    let mut i: usize = 0;
    while i < v.len()
        invariant
            i <= v@.len(),
            n == if utf8_len(v@.take(i as int)) < usize::MAX { utf8_len(v@.take(i as int)) } else { usize::MAX as nat },
        decreases v.len() - i,
    {
        proof {
            assert(v@.take(i + 1) =~= v@.take(i as int).push(v@[i as int]));
            lemma_utf8_len_push(v@.take(i as int), v@[i as int]);
        }
        let w = char_len_utf8(v[i]);
        if n >= usize::MAX - w {
            n = usize::MAX;
        } else {
            n = n + w;
        }
        i = i + 1;
    }
    assert(v@.take(v.len() as int) =~= v@);
    n < usize::MAX
}

/// Appends the characters of a string slice.
pub fn push_str_chars(v: &mut Vec<char>, s: &str)
    ensures
        final(v)@ == old(v)@ + s@,
{
    let c = str_to_chars(s);
    let mut i: usize = 0;
    while i < c.len()
        invariant
            i <= c@.len(),
            c@ == s@,
            v@ == old(v)@ + c@.take(i as int),
        decreases c.len() - i,
    {
        v.push(c[i]);
        assert(c@.take(i + 1) =~= c@.take(i as int).push(c@[i as int]));
        assert(old(v)@ + c@.take(i + 1) =~= (old(v)@ + c@.take(i as int)).push(c@[i as int]));
        i = i + 1;
    }
    assert(c@.take(c@.len() as int) =~= c@);
}

} // verus!
