//! Lightweight GLSL symbol extraction from shader block code: function
//! declarations, uniform and varying declarations, and `materialParams.xxx`
//! and `material.xxx` references, each with the byte offsets of its name.
use vstd::prelude::*;
use crate::parser::ShaderBlock;
use crate::text::{
    alphanumeric, char_is_alphanumeric, chars_occur_at, chars_to_string, has_prefix, has_suffix,
    is_whitespace, is_ws, occurs_at, str_to_chars, sub_chars, utf8_count, utf8_len,
    char_utf8_len, lemma_utf8_len_sub,
};

verus! {

/// Kinds of symbols that can be extracted from shader code.
#[derive(Debug, Clone, Copy, PartialEq, Eq, Structural)]
pub enum ShaderSymbolKind {
    Function,
    Uniform,
    Varying,
    MaterialParamRef,
    MaterialFieldRef,
}

/// A symbol extracted from shader code, with the byte range of its name
/// within the code.
#[derive(Debug, Clone, PartialEq)]
pub struct ShaderSymbol {
    pub kind: ShaderSymbolKind,
    pub name: String,
    pub byte_start: usize,
    pub byte_end: usize,
}

pub struct SymbolView {
    pub kind: ShaderSymbolKind,
    pub name: Seq<char>,
    pub byte_start: int,
    pub byte_end: int,
}

impl View for ShaderSymbol {
    type V = SymbolView;

    open spec fn view(&self) -> SymbolView {
        SymbolView { kind: self.kind, name: self.name@, byte_start: self.byte_start as int, byte_end: self.byte_end as int }
    }
}

pub open spec fn symbols_view(s: Seq<ShaderSymbol>) -> Seq<SymbolView> {
    s.map_values(|x: ShaderSymbol| x@)
}

/// A character that may continue a name: alphanumeric or `_`.
pub open spec fn name_char(c: char) -> bool {
    alphanumeric(c) || c == '_'
}

pub open spec fn all_name_chars(s: Seq<char>) -> bool {
    forall|i: int| 0 <= i < s.len() ==> name_char(#[trigger] s[i])
}

/// The classes of characters that end a scan.
#[derive(Clone, Copy, PartialEq, Eq, Structural)]
pub enum Stop {
    /// Not a name character.
    NotName,
    /// Whitespace, `;` or `[` (the end of a uniform's type).
    UniformType,
    /// Whitespace or `;` (the end of a varying's type).
    VaryingType,
    /// Whitespace, `;` or `=` (the end of a declared name).
    DeclName,
    /// A line feed.
    Newline,
    /// An opening parenthesis.
    Paren,
    /// Not whitespace.
    NonWs,
    /// An equals sign.
    Equals,
}

pub open spec fn stops(k: Stop, c: char) -> bool {
    match k {
        Stop::NotName => !name_char(c),
        Stop::UniformType => is_ws(c) || c == ';' || c == '[',
        Stop::VaryingType => is_ws(c) || c == ';',
        Stop::DeclName => is_ws(c) || c == ';' || c == '=',
        Stop::Newline => c == '\n',
        Stop::Paren => c == '(',
        Stop::NonWs => !is_ws(c),
        Stop::Equals => c == '=',
    }
}

/// The first index from `s` on whose character stops a scan of class `k`,
/// or the length when there is none.
pub open spec fn first_stop(c: Seq<char>, s: int, k: Stop) -> int
    decreases c.len() - s,
{
    if s >= c.len() {
        c.len() as int
    } else if stops(k, c[s]) {
        s
    } else {
        first_stop(c, s + 1, k)
    }
}

/// The number of UTF-8 bytes before index `i`.
pub open spec fn bytes(c: Seq<char>, i: int) -> int {
    utf8_len(c.take(i)) as int
}

/// The first index from `from` on where `pat` occurs.
pub open spec fn first_occurrence(c: Seq<char>, pat: Seq<char>, from: int) -> Option<int>
    decreases c.len() - from,
{
    if from < 0 || from + pat.len() > c.len() {
        None
    } else if occurs_at(c, pat, from) {
        Some(from)
    } else if from >= c.len() {
        None
    } else {
        first_occurrence(c, pat, from + 1)
    }
}

/// The reference named after `materialParams.` at index `i`.
pub open spec fn param_sym(c: Seq<char>, i: int) -> Option<SymbolView> {
    let s = i + 15;
    let j = first_stop(c, s, Stop::NotName);
    if j > s {
        Some(SymbolView { kind: ShaderSymbolKind::MaterialParamRef, name: c.subrange(s, j), byte_start: bytes(c, s), byte_end: bytes(c, j) })
    } else {
        None
    }
}

/// The field named after `material.` at index `i`: not after
/// `materialParams`, and only where a character other than a name
/// character follows the name.
pub open spec fn field_sym(c: Seq<char>, i: int) -> Option<SymbolView> {
    let s = i + 9;
    let j = first_stop(c, s, Stop::NotName);
    if i > 0 && has_suffix(c.take(i), "materialParams"@) {
        None
    } else if j < c.len() && j > s {
        Some(SymbolView { kind: ShaderSymbolKind::MaterialFieldRef, name: c.subrange(s, j), byte_start: bytes(c, s), byte_end: bytes(c, j) })
    } else {
        None
    }
}

/// The declared name of `uniform type name` or `varying type name` after
/// the keyword at index `i`, with where its type starts and where the name
/// starts.
pub open spec fn decl_name(c: Seq<char>, i: int, type_stop: Stop) -> Option<(Seq<char>, int, int)> {
    let a = i + 8;
    let r0 = first_stop(c, a, Stop::NonWs);
    let t = first_stop(c, r0, type_stop);
    let a2 = first_stop(c, t, Stop::NonWs);
    let n = first_stop(c, a2, Stop::DeclName);
    if t >= c.len() || n >= c.len() {
        None
    } else {
        let name = c.subrange(a2, n);
        if name.len() == 0 || !all_name_chars(name) {
            None
        } else {
            Some((name, r0, a2))
        }
    }
}

/// The uniform declared after `uniform ` at index `i`, at the byte offset of
/// its name.
pub open spec fn uniform_sym(c: Seq<char>, i: int) -> Option<SymbolView> {
    match decl_name(c, i, Stop::UniformType) {
        None => None,
        Some((name, r0, a2)) => {
            let start = bytes(c, a2);
            Some(SymbolView { kind: ShaderSymbolKind::Uniform, name, byte_start: start, byte_end: start + utf8_len(name) })
        },
    }
}

/// The varying declared after `varying ` at index `i`, at the byte offset of
/// its name.
pub open spec fn varying_sym(c: Seq<char>, i: int) -> Option<SymbolView> {
    match decl_name(c, i, Stop::VaryingType) {
        None => None,
        Some((name, r0, a2)) => {
            let start = bytes(c, a2);
            Some(SymbolView { kind: ShaderSymbolKind::Varying, name, byte_start: start, byte_end: start + utf8_len(name) })
        },
    }
}

/// The four kinds of symbols found by a pattern.
#[derive(Clone, Copy, PartialEq, Eq, Structural)]
pub enum RefPart {
    Params,
    Fields,
    Uniforms,
    Varyings,
}

pub open spec fn part_pattern(part: RefPart) -> Seq<char> {
    match part {
        RefPart::Params => "materialParams."@,
        RefPart::Fields => "material."@,
        RefPart::Uniforms => "uniform "@,
        RefPart::Varyings => "varying "@,
    }
}

/// The symbol of a part found at index `i`, if its pattern occurs there.
pub open spec fn sym_at(c: Seq<char>, i: int, part: RefPart) -> Option<SymbolView> {
    if !occurs_at(c, part_pattern(part), i) {
        None
    } else {
        match part {
            RefPart::Params => param_sym(c, i),
            RefPart::Fields => field_sym(c, i),
            RefPart::Uniforms => uniform_sym(c, i),
            RefPart::Varyings => varying_sym(c, i),
        }
    }
}

pub open spec fn opt_seq<T>(o: Option<T>) -> Seq<T> {
    match o {
        Some(x) => seq![x],
        None => seq![],
    }
}

/// The symbols of a part at every occurrence of its pattern from index `i`.
pub open spec fn part_syms(c: Seq<char>, i: int, part: RefPart) -> Seq<SymbolView>
    decreases c.len() - i,
{
    if i < 0 || i >= c.len() {
        seq![]
    } else {
        opt_seq(sym_at(c, i, part)) + part_syms(c, i + 1, part)
    }
}

/// The end of the line that starts at `s` (the index of its line feed, or
/// the length).
pub open spec fn line_end(c: Seq<char>, s: int) -> int {
    first_stop(c, s, Stop::Newline)
}

/// The line that starts at `s`, without its line ending (a carriage return
/// goes only where a line feed follows it).
pub open spec fn line_at(c: Seq<char>, s: int) -> Seq<char> {
    let e = line_end(c, s);
    let raw = c.subrange(s, e);
    if e < c.len() && raw.len() > 0 && raw.last() == '\r' {
        raw.drop_last()
    } else {
        raw
    }
}

/// The line with whitespace removed at both ends.
pub open spec fn trim(s: Seq<char>) -> Seq<char> {
    let a = first_stop(s, 0, Stop::NonWs);
    s.subrange(a, a + trimmed_len(s.skip(a)))
}

/// The length of `s` without its trailing whitespace.
pub open spec fn trimmed_len(s: Seq<char>) -> int
    decreases s.len(),
{
    if s.len() == 0 {
        0
    } else if is_ws(s.last()) {
        trimmed_len(s.drop_last())
    } else {
        s.len() as int
    }
}

/// The index of the last whitespace character.
pub open spec fn last_ws(s: Seq<char>) -> Option<int>
    decreases s.len(),
{
    if s.len() == 0 {
        None
    } else if is_ws(s.last()) {
        Some(s.len() - 1)
    } else {
        last_ws(s.drop_last())
    }
}

/// Whether a trimmed line starts like a declaration that may be a function.
pub open spec fn fn_like(t: Seq<char>) -> bool {
    has_prefix(t, "void "@) || has_prefix(t, "float"@) || has_prefix(t, "int"@) || has_prefix(t, "bool"@)
        || has_prefix(t, "vec"@) || has_prefix(t, "mat"@) || has_prefix(t, "double"@) || has_prefix(t, "uint"@)
        || has_prefix(t, "ivec"@) || has_prefix(t, "uvec"@) || has_prefix(t, "bvec"@)
}

/// The text before the first `(` of a function-like line, trimmed, and the
/// index of its last whitespace character. A line with `=` before its `(`
/// initialises a variable and declares no function.
pub open spec fn fn_head(line: Seq<char>) -> Option<(Seq<char>, int)> {
    let t = trim(line);
    let p = first_stop(t, 0, Stop::Paren);
    if !fn_like(t) || p >= t.len() {
        None
    } else {
        let before = trim(t.take(p));
        if first_stop(before, 0, Stop::Equals) < before.len() {
            None
        } else {
            match last_ws(before) {
                Some(sp) => Some((before, sp)),
                None => None,
            }
        }
    }
}

/// Taking the name after the last whitespace of a function head would cut a
/// character of several bytes (the scan stops there).
pub open spec fn fn_line_breaks(line: Seq<char>) -> bool {
    match fn_head(line) {
        Some((before, sp)) => char_utf8_len(before[sp]) != 1,
        None => false,
    }
}

/// The function declared on a line that starts at byte `off`, at the byte
/// offset of its name: the word after the last whitespace before `(`.
pub open spec fn fn_sym(line: Seq<char>, off: int) -> Option<SymbolView> {
    match fn_head(line) {
        None => None,
        Some((before, sp)) => {
            let name = before.skip(sp + 1);
            let w = first_stop(line, 0, Stop::NonWs);
            if name.len() == 0 || !all_name_chars(name) {
                None
            } else {
                let start = off + bytes(line, w + sp + 1);
                Some(SymbolView { kind: ShaderSymbolKind::Function, name, byte_start: start, byte_end: start + utf8_len(name) })
            }
        },
    }
}

/// The length of `s` without its trailing whitespace is at most its length.
proof fn lemma_trimmed_len(s: Seq<char>)
    ensures
        0 <= trimmed_len(s) <= s.len(),
    decreases s.len(),
{
    if s.len() > 0 && is_ws(s.last()) {
        lemma_trimmed_len(s.drop_last());
    }
}

/// A trimmed text is the part of it from its first non-whitespace
/// character.
pub(crate) proof fn lemma_trim_at(s: Seq<char>)
    ensures
        ({
            let a = first_stop(s, 0, Stop::NonWs);
            &&& 0 <= a <= s.len()
            &&& a + trim(s).len() <= s.len()
            &&& trim(s) == s.subrange(a, a + trim(s).len())
            &&& (a < s.len() ==> !is_ws(s[a]))
        }),
{
    lemma_first_stop(s, 0, Stop::NonWs);
    let a = first_stop(s, 0, Stop::NonWs);
    lemma_trimmed_len(s.skip(a));
}

/// The trimmed text before `(` of a function line stands in the line right
/// where its first non-whitespace character is.
pub proof fn lemma_fn_head_place(line: Seq<char>)
    requires
        fn_head(line) is Some,
    ensures
        ({
            let (before, sp) = fn_head(line).unwrap();
            let w = first_stop(line, 0, Stop::NonWs);
            &&& 0 <= w
            &&& w + before.len() <= line.len()
            &&& line.subrange(w, w + before.len()) == before
            &&& 0 <= sp < before.len()
        }),
{
    let t = trim(line);
    let p = first_stop(t, 0, Stop::Paren);
    let tp = t.take(p);
    let before = trim(tp);
    let w = first_stop(line, 0, Stop::NonWs);
    lemma_trim_at(line);
    lemma_first_stop(t, 0, Stop::Paren);
    lemma_trim_at(tp);
    lemma_last_ws(before);
    if p == 0 {
        assert(tp.len() == 0);
        assert(before.len() == 0);
    }
    assert(t.len() > 0);
    assert(!is_ws(t[0]));
    assert(tp[0] == t[0]);
    assert(first_stop(tp, 0, Stop::NonWs) == 0);
    assert(before == tp.subrange(0, before.len() as int));
    assert forall|k: int| 0 <= k < before.len() implies line.subrange(w, w + before.len())[k] == before[k] by {
        assert(before[k] == tp[k]);
        assert(tp[k] == t[k]);
        assert(t[k] == line[w + k]);
    }
    assert(line.subrange(w, w + before.len()) =~= before);
}

proof fn lemma_last_ws(s: Seq<char>)
    ensures
        last_ws(s) matches Some(k) ==> 0 <= k < s.len(),
    decreases s.len(),
{
    if s.len() > 0 && !is_ws(s.last()) {
        lemma_last_ws(s.drop_last());
    }
}

/// The functions declared on the lines from the one at `s` (at byte `off`).
pub open spec fn fn_syms(c: Seq<char>, s: int, off: int) -> Seq<SymbolView>
    decreases c.len() + 1 - s,
{
    if s < 0 || s >= c.len() {
        seq![]
    } else {
        let line = line_at(c, s);
        proof {
            lemma_first_stop(c, s, Stop::Newline);
        }
        opt_seq(fn_sym(line, off)) + fn_syms(c, line_end(c, s) + 1, off + utf8_len(line) + 1)
    }
}

/// No line from `s` on breaks the function scan.
pub open spec fn lines_ok(c: Seq<char>, s: int) -> bool
    decreases c.len() + 1 - s,
{
    if s < 0 || s >= c.len() {
        true
    } else {
        proof {
            lemma_first_stop(c, s, Stop::Newline);
        }
        !fn_line_breaks(line_at(c, s)) && lines_ok(c, line_end(c, s) + 1)
    }
}

/// All symbols of a code text, in the order of the scans.
pub open spec fn code_symbols(c: Seq<char>) -> Seq<SymbolView> {
    part_syms(c, 0, RefPart::Params) + part_syms(c, 0, RefPart::Fields) + part_syms(c, 0, RefPart::Uniforms)
        + part_syms(c, 0, RefPart::Varyings) + fn_syms(c, 0, 0)
}


fn stops_exec(k: Stop, ch: char) -> (r: bool)
    ensures
        r == stops(k, ch),
{
    match k {
        Stop::NotName => !(char_is_alphanumeric(ch) || ch == '_'),
        Stop::UniformType => is_whitespace(ch) || ch == ';' || ch == '[',
        Stop::VaryingType => is_whitespace(ch) || ch == ';',
        Stop::DeclName => is_whitespace(ch) || ch == ';' || ch == '=',
        Stop::Newline => ch == '\n',
        Stop::Paren => ch == '(',
        Stop::NonWs => !is_whitespace(ch),
        Stop::Equals => ch == '=',
    }
}

fn first_stop_exec(c: &[char], s: usize, k: Stop) -> (r: usize)
    requires
        s <= c@.len(),
    ensures
        r == first_stop(c@, s as int, k),
        s <= r <= c@.len(),
{
    let mut i = s;
    while i < c.len()
        invariant
            s <= i <= c@.len(),
            first_stop(c@, s as int, k) == first_stop(c@, i as int, k),
        decreases c.len() - i,
    {
        if stops_exec(k, c[i]) {
            return i;
        }
        i = i + 1;
    }
    i
}

/// Where the first stop from `s` lies.
pub proof fn lemma_first_stop(c: Seq<char>, s: int, k: Stop)
    requires
        0 <= s <= c.len(),
    ensures
        s <= first_stop(c, s, k) <= c.len(),
        first_stop(c, s, k) < c.len() ==> stops(k, c[first_stop(c, s, k)]),
        forall|j: int| s <= j < first_stop(c, s, k) ==> !stops(k, #[trigger] c[j]),
    decreases c.len() - s,
{
    if s < c.len() && !stops(k, c[s]) {
        lemma_first_stop(c, s + 1, k);
    }
}

proof fn lemma_utf8_len_single(ch: char)
    ensures
        utf8_len(seq![ch]) == char_utf8_len(ch),
{
    reveal_with_fuel(utf8_len, 2);
    assert(seq![ch].drop_last() =~= Seq::<char>::empty());
    assert(seq![ch].last() == ch);
}

fn bytes_exec(c: &[char], i: usize) -> (r: usize)
    requires
        i <= c@.len(),
        utf8_len(c@) <= usize::MAX,
    ensures
        r == bytes(c@, i as int),
{
    assert(c@.take(i as int) =~= c@.subrange(0, i as int));
    utf8_count(c, 0, i)
}

/// `bytes` grows with the index, by the bytes in between.
proof fn lemma_bytes(c: Seq<char>, x: int, y: int)
    requires
        0 <= x <= y <= c.len(),
    ensures
        bytes(c, y) == bytes(c, x) + utf8_len(c.subrange(x, y)),
        bytes(c, y) <= utf8_len(c),
{
    lemma_utf8_len_sub(c, x, y);
    lemma_utf8_len_sub(c, y, c.len() as int);
    assert(c.take(c.len() as int) =~= c);
}

pub(crate) fn first_occurrence_exec(c: &[char], pat: &[char], from: usize) -> (r: Option<usize>)
    requires
        pat@.len() > 0,
    ensures
        match first_occurrence(c@, pat@, from as int) {
            Some(k) => r is Some && r.unwrap() == k,
            None => r is None,
        },
        r matches Some(k) ==> occurs_at(c@, pat@, k as int) && from <= k,
{
    let mut i = from;
    while i < c.len() && pat.len() <= c.len() - i
        invariant
            from <= i,
            first_occurrence(c@, pat@, from as int) == first_occurrence(c@, pat@, i as int),
        decreases c.len() + 1 - i,
    {
        if chars_occur_at(c, pat, i) {
            return Some(i);
        }
        i = i + 1;
    }
    None
}

fn all_name_chars_exec(v: &[char]) -> (r: bool)
    ensures
        r == all_name_chars(v@),
{
    let mut i: usize = 0;
    while i < v.len()
        invariant
            i <= v@.len(),
            forall|j: int| 0 <= j < i ==> name_char(#[trigger] v@[j]),
        decreases v.len() - i,
    {
        if !(char_is_alphanumeric(v[i]) || v[i] == '_') {
            return false;
        }
        i = i + 1;
    }
    true
}

fn make_symbol(kind: ShaderSymbolKind, name: &[char], start: usize) -> (r: ShaderSymbol)
    requires
        start + utf8_len(name@) <= usize::MAX,
    ensures
        r@ == (SymbolView { kind, name: name@, byte_start: start as int, byte_end: start + utf8_len(name@) }),
{
    assert(name@.subrange(0, name@.len() as int) =~= name@);
    let w = utf8_count(name, 0, name.len());
    ShaderSymbol { kind, name: chars_to_string(name), byte_start: start, byte_end: start + w }
}

fn param_sym_exec(c: &[char], i: usize) -> (r: Option<ShaderSymbol>)
    requires
        i + 15 <= c.len(),
        utf8_len(c@) <= usize::MAX,
    ensures
        match param_sym(c@, i as int) {
            Some(v) => r is Some && r.unwrap()@ == v,
            None => r is None,
        },
{
    let s = i + 15;
    let j = first_stop_exec(c, s, Stop::NotName);
    if j > s {
        let name = sub_chars(c, s, j);
        let bs = bytes_exec(c, s);
        let be = bytes_exec(c, j);
        proof {
            lemma_bytes(c@, s as int, j as int);
        }
        let mut sym = make_symbol(ShaderSymbolKind::MaterialParamRef, name.as_slice(), bs);
        sym.byte_end = be;
        Some(sym)
    } else {
        None
    }
}

fn field_sym_exec(c: &[char], i: usize) -> (r: Option<ShaderSymbol>)
    requires
        i + 9 <= c.len(),
        utf8_len(c@) <= usize::MAX,
    ensures
        match field_sym(c@, i as int) {
            Some(v) => r is Some && r.unwrap()@ == v,
            None => r is None,
        },
{
    let s = i + 9;
    let j = first_stop_exec(c, s, Stop::NotName);
    let mp: [char; 14] = ['m', 'a', 't', 'e', 'r', 'i', 'a', 'l', 'P', 'a', 'r', 'a', 'm', 's'];
    proof {
        reveal_strlit("materialParams");
        assert(mp@ =~= "materialParams"@);
    }
    if i >= 14 && chars_occur_at(c, mp.as_slice(), i - 14) {
        assert(c@.take(i as int).skip(i - 14) =~= c@.subrange(i - 14, i as int));
        return None;
    }
    if i > 0 {
        assert(!has_suffix(c@.take(i as int), "materialParams"@)) by {
            if i >= 14 {
                assert(c@.take(i as int).skip(i - 14) =~= c@.subrange(i - 14, i as int));
            }
        }
    }
    if j < c.len() && j > s {
        let name = sub_chars(c, s, j);
        let bs = bytes_exec(c, s);
        let be = bytes_exec(c, j);
        proof {
            lemma_bytes(c@, s as int, j as int);
        }
        let mut sym = make_symbol(ShaderSymbolKind::MaterialFieldRef, name.as_slice(), bs);
        sym.byte_end = be;
        Some(sym)
    } else {
        None
    }
}

fn decl_name_exec(c: &[char], i: usize, type_stop: Stop) -> (r: Option<(Vec<char>, usize, usize)>)
    requires
        i + 8 <= c.len(),
    ensures
        match decl_name(c@, i as int, type_stop) {
            Some((name, r0, a2)) => r is Some && r.unwrap().0@ == name && r.unwrap().1 == r0 && r.unwrap().2 == a2
                && i + 8 <= r0 <= a2 && a2 + name.len() < c@.len() && name == c@.subrange(a2, a2 + name.len())
                && name.len() > 0,
            None => r is None,
        },
{
    let a = i + 8;
    let r0 = first_stop_exec(c, a, Stop::NonWs);
    let t = first_stop_exec(c, r0, type_stop);
    let a2 = first_stop_exec(c, t, Stop::NonWs);
    let n = first_stop_exec(c, a2, Stop::DeclName);
    if t >= c.len() || n >= c.len() {
        return None;
    }
    let name = sub_chars(c, a2, n);
    if name.len() == 0 || !all_name_chars_exec(name.as_slice()) {
        return None;
    }
    Some((name, r0, a2))
}

fn uniform_sym_exec(c: &[char], i: usize) -> (r: Option<ShaderSymbol>)
    requires
        i + 8 <= c.len(),
        utf8_len(c@) < usize::MAX,
    ensures
        match uniform_sym(c@, i as int) {
            Some(v) => r is Some && r.unwrap()@ == v,
            None => r is None,
        },
{
    match decl_name_exec(c, i, Stop::UniformType) {
        None => None,
        Some((name, r0, a2)) => {
            let start = bytes_exec(c, a2);
            proof {
                lemma_bytes(c@, a2 as int, a2 + name@.len());
                assert(c@.subrange(a2 as int, a2 + name@.len()) =~= name@);
            }
            Some(make_symbol(ShaderSymbolKind::Uniform, name.as_slice(), start))
        },
    }
}

fn varying_sym_exec(c: &[char], i: usize) -> (r: Option<ShaderSymbol>)
    requires
        i + 8 <= c.len(),
        utf8_len(c@) <= usize::MAX,
    ensures
        match varying_sym(c@, i as int) {
            Some(v) => r is Some && r.unwrap()@ == v,
            None => r is None,
        },
{
    match decl_name_exec(c, i, Stop::VaryingType) {
        None => None,
        Some((name, r0, a2)) => {
            let b2 = bytes_exec(c, a2);
            proof {
                lemma_bytes(c@, a2 as int, a2 + name@.len());
                assert(c@.subrange(a2 as int, a2 + name@.len()) =~= name@);
            }
            Some(make_symbol(ShaderSymbolKind::Varying, name.as_slice(), b2))
        },
    }
}

fn pattern_exec(part: RefPart) -> (r: Vec<char>)
    ensures
        r@ == part_pattern(part),
{
    let s = match part {
        RefPart::Params => "materialParams.",
        RefPart::Fields => "material.",
        RefPart::Uniforms => "uniform ",
        RefPart::Varyings => "varying ",
    };
    str_to_chars(s)
}

/// Appends the symbols of one part, scanning every index of the code.
fn push_part(c: &[char], part: RefPart, out: &mut Vec<ShaderSymbol>)
    requires
        utf8_len(c@) < usize::MAX,
    ensures
        symbols_view(final(out)@) == symbols_view(old(out)@) + part_syms(c@, 0, part),
{
    let pat = pattern_exec(part);
    proof {
        reveal_strlit("materialParams.");
        reveal_strlit("material.");
        reveal_strlit("uniform ");
        reveal_strlit("varying ");
    }
    let ghost o = symbols_view(out@);
    let mut i: usize = 0;
    assert(o + part_syms(c@, 0, part) =~= symbols_view(out@) + part_syms(c@, 0, part));
    while i < c.len()
        invariant
            i <= c@.len(),
            pat@ == part_pattern(part),
            utf8_len(c@) < usize::MAX,
            o + part_syms(c@, 0, part) == symbols_view(out@) + part_syms(c@, i as int, part),
        decreases c.len() - i,
    {
        let ghost before = symbols_view(out@);
        proof {
            reveal_strlit("materialParams.");
            reveal_strlit("material.");
            reveal_strlit("uniform ");
            reveal_strlit("varying ");
        }
        let found = if chars_occur_at(c, pat.as_slice(), i) {
            match part {
                RefPart::Params => param_sym_exec(c, i),
                RefPart::Fields => field_sym_exec(c, i),
                RefPart::Uniforms => uniform_sym_exec(c, i),
                RefPart::Varyings => varying_sym_exec(c, i),
            }
        } else {
            None
        };
        assert(found is Some ==> opt_seq(sym_at(c@, i as int, part)) == seq![found.unwrap()@]);
        assert(found is None ==> opt_seq(sym_at(c@, i as int, part)) =~= Seq::<SymbolView>::empty());
        match found {
            Some(x) => {
                let ghost prev = out@;
                out.push(x);
                assert(symbols_view(out@) =~= symbols_view(prev).push(x@));
            },
            None => {},
        }
        assert(part_syms(c@, i as int, part) == opt_seq(sym_at(c@, i as int, part)) + part_syms(c@, i + 1, part));
        assert(before + part_syms(c@, i as int, part) =~= symbols_view(out@) + part_syms(c@, i + 1, part));
        i = i + 1;
    }
    assert(symbols_view(out@) + part_syms(c@, i as int, part) =~= symbols_view(out@));
}


fn trimmed_len_exec(v: &[char], a: usize) -> (r: usize)
    requires
        a <= v@.len(),
    ensures
        r == trimmed_len(v@.skip(a as int)),
        a + r <= v@.len(),
{
    let mut j = v.len();
    assert(v@.skip(a as int) =~= v@.subrange(a as int, j as int));
    while j > a && is_whitespace(v[j - 1])
        invariant
            a <= j <= v@.len(),
            trimmed_len(v@.skip(a as int)) == trimmed_len(v@.subrange(a as int, j as int)),
        decreases j,
    {
        assert(v@.subrange(a as int, j as int).drop_last() =~= v@.subrange(a as int, j - 1));
        j = j - 1;
    }
    j - a
}

pub fn trim_exec(v: &[char]) -> (r: Vec<char>)
    ensures
        r@ == trim(v@),
{
    let vl = v.len();
    let a = first_stop_exec(v, 0, Stop::NonWs);
    let n = trimmed_len_exec(v, a);
    sub_chars(v, a, a + n)
}

fn last_ws_exec(v: &[char]) -> (r: Option<usize>)
    ensures
        match last_ws(v@) {
            Some(k) => r is Some && r.unwrap() == k,
            None => r is None,
        },
        r matches Some(k) ==> k < v@.len(),
{
    let mut j = v.len();
    assert(v@.take(j as int) =~= v@);
    while j > 0
        invariant
            j <= v@.len(),
            last_ws(v@) == last_ws(v@.take(j as int)),
        decreases j,
    {
        assert(v@.take(j as int).drop_last() =~= v@.take(j - 1));
        if is_whitespace(v[j - 1]) {
            return Some(j - 1);
        }
        j = j - 1;
    }
    None
}

fn starts_with_str(t: &[char], p: &str) -> (r: bool)
    ensures
        r == has_prefix(t@, p@),
{
    let pc = str_to_chars(p);
    let r = chars_occur_at(t, pc.as_slice(), 0);
    assert(pc@.len() <= t@.len() ==> t@.take(pc@.len() as int) =~= t@.subrange(0, pc@.len() as int));
    r
}

fn fn_like_exec(t: &[char]) -> (r: bool)
    ensures
        r == fn_like(t@),
{
    starts_with_str(t, "void ") || starts_with_str(t, "float") || starts_with_str(t, "int") || starts_with_str(t, "bool")
        || starts_with_str(t, "vec") || starts_with_str(t, "mat") || starts_with_str(t, "double")
        || starts_with_str(t, "uint") || starts_with_str(t, "ivec") || starts_with_str(t, "uvec")
        || starts_with_str(t, "bvec")
}

fn fn_head_exec(line: &[char]) -> (r: Option<(Vec<char>, usize)>)
    ensures
        match fn_head(line@) {
            Some((before, sp)) => r is Some && r.unwrap().0@ == before && r.unwrap().1 == sp && 0 <= sp < before.len(),
            None => r is None,
        },
{
    let t = trim_exec(line);
    let p = first_stop_exec(t.as_slice(), 0, Stop::Paren);
    if !fn_like_exec(t.as_slice()) || p >= t.len() {
        return None;
    }
    let tp = sub_chars(t.as_slice(), 0, p);
    assert(tp@ =~= t@.take(p as int));
    let before = trim_exec(tp.as_slice());
    let q = first_stop_exec(before.as_slice(), 0, Stop::Equals);
    if q < before.len() {
        return None;
    }
    match last_ws_exec(before.as_slice()) {
        Some(sp) => Some((before, sp)),
        None => None,
    }
}

/// Whether the function scan of a line would cut a character of several
/// bytes.
fn fn_line_breaks_exec(line: &[char]) -> (r: bool)
    ensures
        r == fn_line_breaks(line@),
{
    match fn_head_exec(line) {
        Some((before, sp)) => crate::text::char_len_utf8(before[sp]) != 1,
        None => false,
    }
}

fn fn_sym_exec(line: &[char], off: usize) -> (r: Option<ShaderSymbol>)
    requires
        off + utf8_len(line@) <= usize::MAX,
    ensures
        match fn_sym(line@, off as int) {
            Some(v) => r is Some && r.unwrap()@ == v,
            None => r is None,
        },
{
    match fn_head_exec(line) {
        None => None,
        Some((before, sp)) => {
            let bl = before.len();
            let name = sub_chars(before.as_slice(), sp + 1, bl);
            assert(name@ =~= before@.skip(sp + 1));
            let w = first_stop_exec(line, 0, Stop::NonWs);
            if name.len() == 0 || !all_name_chars_exec(name.as_slice()) {
                return None;
            }
            proof {
                lemma_fn_head_place(line@);
                assert(fn_head(line@).unwrap().0 == before@);
                assert(w + bl <= line@.len());
                assert(sp < bl);
                lemma_bytes(line@, (w + sp + 1) as int, (w + bl) as int);
                assert(line@.subrange((w + sp + 1) as int, (w + bl) as int) =~= name@);
                lemma_bytes(line@, 0, line@.len() as int);
                assert(line@.take(line@.len() as int) =~= line@);
            }
            let ll = line.len();
            assert(w + sp + 1 <= ll);
            let b = bytes_exec(line, w + sp + 1);
            Some(make_symbol(ShaderSymbolKind::Function, name.as_slice(), off + b))
        },
    }
}

/// The line that starts at `s` and where it ends.
pub(crate) fn line_exec(c: &[char], s: usize) -> (r: (Vec<char>, usize))
    requires
        s < c@.len(),
    ensures
        r.0@ == line_at(c@, s as int),
        r.1 == line_end(c@, s as int),
        s <= r.1 <= c@.len(),
        r.0@.len() <= r.1 - s,
        r.0@ == c@.subrange(s as int, s + r.0@.len()),
{
    let e = first_stop_exec(c, s, Stop::Newline);
    let mut line = sub_chars(c, s, e);
    if e < c.len() && line.len() > 0 && line[line.len() - 1] == '\r' {
        line.pop();
        assert(line@ =~= c@.subrange(s as int, s + line@.len()));
    }
    (line, e)
}

/// Appends the functions declared on the lines of the code.
fn push_functions(c: &[char], out: &mut Vec<ShaderSymbol>)
    requires
        lines_ok(c@, 0),
        utf8_len(c@) < usize::MAX,
    ensures
        symbols_view(final(out)@) == symbols_view(old(out)@) + fn_syms(c@, 0, 0),
{
    let ghost o = symbols_view(out@);
    let mut s: usize = 0;
    let mut off: usize = 0;
    proof {
        lemma_bytes(c@, 0, 0);
        assert(c@.take(0) =~= Seq::<char>::empty());
    }
    while s < c.len()
        invariant
            s <= c@.len() + 1,
            utf8_len(c@) < usize::MAX,
            lines_ok(c@, s as int),
            s < c@.len() ==> off <= bytes(c@, s as int),
            o + fn_syms(c@, 0, 0) == symbols_view(out@) + fn_syms(c@, s as int, off as int),
        decreases c.len() + 1 - s,
    {
        let (line, e) = line_exec(c, s);
        proof {
            lemma_bytes(c@, s as int, e as int);
            lemma_bytes(c@, s as int, s + line@.len());
            lemma_bytes(c@, s + line@.len(), e as int);
        }
        let ghost before = symbols_view(out@);
        let found = fn_sym_exec(line.as_slice(), off);
        match found {
            Some(x) => {
                let ghost prev = out@;
                out.push(x);
                assert(symbols_view(out@) =~= symbols_view(prev).push(x@));
            },
            None => {},
        }
        let w = utf8_count(line.as_slice(), 0, line.len());
        assert(line@.subrange(0, line@.len() as int) =~= line@);
        proof {
            if e < c@.len() {
                lemma_bytes(c@, e as int, e + 1);
                assert(c@.subrange(e as int, e + 1) =~= seq![c@[e as int]]);
                lemma_utf8_len_single(c@[e as int]);
            }
        }
        assert(before + fn_syms(c@, s as int, off as int) =~= symbols_view(out@) + fn_syms(c@, e + 1, off + w + 1));
        assert(fn_syms(c@, c@.len() as int, (off + w + 1) as int) =~= fn_syms(c@, c@.len() as int + 1, (off + w + 1) as int));
        off = off + w + 1;
        s = if e < c.len() { e + 1 } else { c.len() };
    }
    assert(symbols_view(out@) + fn_syms(c@, s as int, off as int) =~= symbols_view(out@));
}

/// Whether the function scan can read every line of the code.
pub fn symbols_scan_ok(code: &str) -> (r: bool)
    ensures
        r == lines_ok(code@, 0),
{
    let v = str_to_chars(code);
    let c = v.as_slice();
    let mut s: usize = 0;
    while s < c.len()
        invariant
            s <= c@.len() + 1,
            c@ == code@,
            lines_ok(c@, 0) == lines_ok(c@, s as int),
        decreases c.len() + 1 - s,
    {
        let (line, e) = line_exec(c, s);
        if fn_line_breaks_exec(line.as_slice()) {
            return false;
        }
        assert(lines_ok(c@, s as int) == lines_ok(c@, e + 1));
        assert(lines_ok(c@, c@.len() as int) && lines_ok(c@, c@.len() as int + 1));
        s = if e < c.len() { e + 1 } else { c.len() };
    }
    true
}

/// Extracts the symbols of a shader block's code: `materialParams.xxx`
/// references, then `material.xxx` references, uniforms, varyings, and
/// functions, each in order of position.
pub fn extract_symbols(shader: &ShaderBlock) -> (r: Vec<ShaderSymbol>)
    requires
        lines_ok(shader.code@, 0),
        utf8_len(shader.code@) < usize::MAX,
    ensures
        symbols_view(r@) == code_symbols(shader.code@),
{
    let v = str_to_chars(shader.code.as_str());
    let c = v.as_slice();
    let mut out: Vec<ShaderSymbol> = Vec::new();
    assert(symbols_view(out@) =~= Seq::<SymbolView>::empty());
    push_part(c, RefPart::Params, &mut out);
    push_part(c, RefPart::Fields, &mut out);
    push_part(c, RefPart::Uniforms, &mut out);
    push_part(c, RefPart::Varyings, &mut out);
    push_functions(c, &mut out);
    assert(symbols_view(out@) =~= code_symbols(shader.code@));
    out
}


/// The symbol stands at its own bytes of the code: some run of characters
/// of `c` equals its name, its byte range is that run's, and the name is
/// made of name characters and not empty, so the range is not empty and
/// ends within the code.
pub open spec fn spelled(c: Seq<char>, v: SymbolView) -> bool {
    &&& all_name_chars(v.name)
    &&& v.name.len() > 0
    &&& 0 <= v.byte_start < v.byte_end <= utf8_len(c)
    &&& exists|k: int| #![trigger bytes(c, k)]
        0 <= k && k + v.name.len() <= c.len() && c.subrange(k, k + v.name.len()) == v.name
            && v.byte_start == bytes(c, k) && v.byte_end == bytes(c, k + v.name.len())
}

/// A run `c[k..j]` of name characters, at its bytes, is spelled.
proof fn lemma_run_spelled(c: Seq<char>, v: SymbolView, k: int, j: int)
    requires
        0 <= k < j <= c.len(),
        v.name == c.subrange(k, j),
        all_name_chars(v.name),
        v.byte_start == bytes(c, k),
        v.byte_end == bytes(c, k) + utf8_len(v.name) || v.byte_end == bytes(c, j),
    ensures
        spelled(c, v),
{
    lemma_bytes(c, k, j);
    lemma_bytes(c, 0, k);
    crate::text::lemma_utf8_len_ge(v.name);
    assert(k + v.name.len() == j);
    assert(bytes(c, k) == bytes(c, k));
}

/// The characters before a stop of class `NotName` are name characters.
proof fn lemma_name_run(c: Seq<char>, s: int)
    requires
        0 <= s <= c.len(),
    ensures
        all_name_chars(c.subrange(s, first_stop(c, s, Stop::NotName))),
{
    lemma_first_stop(c, s, Stop::NotName);
    let j = first_stop(c, s, Stop::NotName);
    assert forall|i: int| 0 <= i < c.subrange(s, j).len() implies name_char(#[trigger] c.subrange(s, j)[i]) by {
        assert(!stops(Stop::NotName, c[s + i]));
    }
}

/// What the pattern scans find is spelled.
proof fn lemma_part_spelled(c: Seq<char>, i: int, part: RefPart)
    requires
        0 <= i,
    ensures
        forall|x: int| 0 <= x < part_syms(c, i, part).len() ==> spelled(c, #[trigger] part_syms(c, i, part)[x]),
    decreases c.len() - i,
{
    if i < c.len() {
        lemma_part_spelled(c, i + 1, part);
        let head = opt_seq(sym_at(c, i, part));
        let rest = part_syms(c, i + 1, part);
        assert(part_syms(c, i, part) == head + rest);
        match sym_at(c, i, part) {
            Some(v) => {
                reveal_strlit("materialParams.");
                reveal_strlit("material.");
                reveal_strlit("uniform ");
                reveal_strlit("varying ");
                assert(occurs_at(c, part_pattern(part), i));
                match part {
                    RefPart::Params => {
                        let st = i + 15;
                        lemma_name_run(c, st);
                        lemma_first_stop(c, st, Stop::NotName);
                        lemma_run_spelled(c, v, st, first_stop(c, st, Stop::NotName));
                    },
                    RefPart::Fields => {
                        let st = i + 9;
                        lemma_name_run(c, st);
                        lemma_first_stop(c, st, Stop::NotName);
                        lemma_run_spelled(c, v, st, first_stop(c, st, Stop::NotName));
                    },
                    _ => {
                        let ts = if part == RefPart::Uniforms { Stop::UniformType } else { Stop::VaryingType };
                        let a = i + 8;
                        lemma_first_stop(c, a, Stop::NonWs);
                        let r0 = first_stop(c, a, Stop::NonWs);
                        lemma_first_stop(c, r0, ts);
                        let t = first_stop(c, r0, ts);
                        lemma_first_stop(c, t, Stop::NonWs);
                        let a2 = first_stop(c, t, Stop::NonWs);
                        lemma_first_stop(c, a2, Stop::DeclName);
                        let n = first_stop(c, a2, Stop::DeclName);
                        lemma_run_spelled(c, v, a2, n);
                    },
                }
            },
            None => {},
        }
        assert forall|x: int| 0 <= x < part_syms(c, i, part).len() implies spelled(c, #[trigger] part_syms(c, i, part)[x]) by {
            if x < head.len() {
                assert(part_syms(c, i, part)[x] == head[x]);
            } else {
                assert(part_syms(c, i, part)[x] == rest[x - head.len()]);
            }
        }
    }
}

/// What the function scan finds on the lines from `s` is spelled, when the
/// code has no carriage return and `off` is the byte offset of `s`.
proof fn lemma_fn_spelled(c: Seq<char>, s: int, off: int)
    requires
        forall|i: int| 0 <= i < c.len() ==> c[i] != '\r',
        0 <= s,
        s <= c.len() ==> off == bytes(c, s),
    ensures
        forall|x: int| 0 <= x < fn_syms(c, s, off).len() ==> spelled(c, #[trigger] fn_syms(c, s, off)[x]),
    decreases c.len() + 1 - s,
{
    if s < c.len() {
        lemma_first_stop(c, s, Stop::Newline);
        let e = line_end(c, s);
        let line = line_at(c, s);
        assert(line == c.subrange(s, e)) by {
            if e < c.len() && c.subrange(s, e).len() > 0 {
                assert(c.subrange(s, e).last() == c[e - 1]);
            }
        }
        let off2 = off + utf8_len(line) + 1;
        if e < c.len() {
            lemma_bytes(c, s, e + 1);
            assert(c.subrange(s, e + 1) =~= c.subrange(s, e).push(c[e]));
            crate::text::lemma_utf8_len_push(c.subrange(s, e), c[e]);
            assert(c[e] == '\n');
        }
        lemma_fn_spelled(c, e + 1, off2);
        let head = opt_seq(fn_sym(line, off));
        let rest = fn_syms(c, e + 1, off2);
        assert(fn_syms(c, s, off) == head + rest);
        match fn_sym(line, off) {
            Some(v) => {
                lemma_fn_head_place(line);
                let (before, sp) = fn_head(line).unwrap();
                let w = first_stop(line, 0, Stop::NonWs);
                let k = s + w + sp + 1;
                let j = s + w + before.len();
                assert(v.name =~= c.subrange(k, j)) by {
                    assert forall|y: int| 0 <= y < v.name.len() implies v.name[y] == c.subrange(k, j)[y] by {
                        assert(v.name[y] == before[sp + 1 + y]);
                        assert(before[sp + 1 + y] == line.subrange(w, w + before.len())[sp + 1 + y]);
                    }
                }
                lemma_bytes(c, s, k);
                assert(line.take(w + sp + 1) =~= c.subrange(s, k));
                lemma_run_spelled(c, v, k, j);
            },
            None => {},
        }
        assert forall|x: int| 0 <= x < fn_syms(c, s, off).len() implies spelled(c, #[trigger] fn_syms(c, s, off)[x]) by {
            if x < head.len() {
                assert(fn_syms(c, s, off)[x] == head[x]);
            } else {
                assert(fn_syms(c, s, off)[x] == rest[x - head.len()]);
            }
        }
    }
}

/// In code without carriage returns, every symbol found stands at its own
/// bytes: its byte range is that of a run of the code equal to its name,
/// the name is not empty and is made of letters, digits and `_`, and so
/// `byte_start < byte_end <= ` the code's length in bytes.
pub proof fn lemma_symbols_spell_names(c: Seq<char>)
    requires
        forall|i: int| 0 <= i < c.len() ==> c[i] != '\r',
    ensures
        forall|x: int| 0 <= x < code_symbols(c).len() ==> spelled(c, #[trigger] code_symbols(c)[x]),
{
    lemma_part_spelled(c, 0, RefPart::Params);
    lemma_part_spelled(c, 0, RefPart::Fields);
    lemma_part_spelled(c, 0, RefPart::Uniforms);
    lemma_part_spelled(c, 0, RefPart::Varyings);
    assert(bytes(c, 0) == 0) by {
        assert(c.take(0) =~= Seq::<char>::empty());
    }
    lemma_fn_spelled(c, 0, 0);
    let a = part_syms(c, 0, RefPart::Params);
    let b = part_syms(c, 0, RefPart::Fields);
    let u = part_syms(c, 0, RefPart::Uniforms);
    let v = part_syms(c, 0, RefPart::Varyings);
    let f = fn_syms(c, 0, 0);
    let all = code_symbols(c);
    assert(all == a + b + u + v + f);
    assert forall|x: int| 0 <= x < all.len() implies spelled(c, #[trigger] all[x]) by {
        if x < a.len() {
            assert(all[x] == a[x]);
        } else if x < a.len() + b.len() {
            assert(all[x] == b[x - a.len()]);
        } else if x < a.len() + b.len() + u.len() {
            assert(all[x] == u[x - a.len() - b.len()]);
        } else if x < a.len() + b.len() + u.len() + v.len() {
            assert(all[x] == v[x - a.len() - b.len() - u.len()]);
        } else {
            assert(all[x] == f[x - a.len() - b.len() - u.len() - v.len()]);
        }
    }
}

} // verus!
