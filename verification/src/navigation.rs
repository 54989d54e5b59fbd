//! Finding and renaming the parameters of a material: where a word leads,
//! where a parameter is used in shader code, and the edits of a rename.
use vstd::prelude::*;
use crate::diagnostics::{TextPosition, TextRange};
use crate::document::{position_index, utf16_len, Document};
use crate::editor::{param_name_of, param_name_from_word, word_around, word_around_exec, word_at_position};
use crate::hover::{hover_doc, HoverEngine};
use crate::parser::{params_view, shaders_view, MatFile, MatFileView, Material, MaterialView, ParameterView, ShaderBlock, ShaderBlockView};
use crate::shader_symbols::{bytes, name_char};
use crate::lexer_spec::{line_col, lemma_line_col_bounds, pos_le};
use crate::editor::is_word_char;
use crate::text::{
    char_len_utf8, chars_occur_at, chars_to_string, string_push_str, occurs_at, push_str_chars, str_eq, str_to_chars, sub_chars,
    to_owned_string, utf8_len, lemma_utf8_len_push, lemma_utf8_len_sub,
};

verus! {

broadcast use vstd::string::group_string_axioms;

/// The places where `p` occurs from index `i`, found from left to right
/// without overlapping (each search resumes after the last match).
pub open spec fn matches_from(c: Seq<char>, p: Seq<char>, i: int) -> Seq<int>
    decreases c.len() + 1 - i,
{
    if p.len() == 0 || i < 0 || i + p.len() > c.len() {
        seq![]
    } else if occurs_at(c, p, i) {
        seq![i] + matches_from(c, p, i + p.len())
    } else {
        matches_from(c, p, i + 1)
    }
}

/// Nothing that continues a name follows index `e` of `c`.
pub open spec fn ends_word(c: Seq<char>, e: int) -> bool {
    e >= c.len() || !name_char(c[e])
}

/// The places of `ms` at which a match of length `plen` ends a word.
pub open spec fn keep_word_ends(c: Seq<char>, ms: Seq<int>, plen: int) -> Seq<int>
    decreases ms.len(),
{
    if ms.len() == 0 {
        seq![]
    } else {
        keep_word_ends(c, ms.drop_last(), plen) + if ends_word(c, ms.last() + plen) { seq![ms.last()] } else { seq![] }
    }
}

/// The places (indices of `c`) where `p` occurs within `c[lo..hi]` as a
/// whole word at its end, found left to right without overlapping.
pub open spec fn word_matches(c: Seq<char>, p: Seq<char>, lo: int, hi: int) -> Seq<int> {
    keep_word_ends(c, matches_from(c.subrange(lo, hi), p, 0).map_values(|m: int| m + lo), p.len() as int)
}

/// The first index from `k` on that the lexer places at or after the
/// 1-based position `(line, col)`; the length when there is none.
pub open spec fn index_from(s: Seq<char>, line: int, col: int, k: int) -> int
    decreases s.len() - k,
{
    if k < 0 || k >= s.len() {
        s.len() as int
    } else if pos_le((line, col), line_col(s, k)) {
        k
    } else {
        index_from(s, line, col, k + 1)
    }
}

/// The first `{` from index `k` on, or the length.
pub open spec fn brace_from(s: Seq<char>, k: int) -> int
    decreases s.len() - k,
{
    if k < 0 || k >= s.len() {
        s.len() as int
    } else if s[k] == '{' {
        k
    } else {
        brace_from(s, k + 1)
    }
}

/// The code of a block in the text: after the first `{` from the block's
/// start, up to the block's closing brace, which stands just before its end
/// (positions counted from 1, as the parser places blocks).
pub open spec fn block_span(s: Seq<char>, r: TextRange) -> (int, int) {
    let a = index_from(s, r.start.line as int, r.start.character as int, 0);
    let b = brace_from(s, a);
    let lo = if b < s.len() { b + 1 } else { s.len() as int };
    let e = index_from(s, r.end.line as int, r.end.character as int, 0);
    let hi = if e > 0 { e - 1 } else { 0 };
    (lo, if hi < lo { lo } else { hi })
}

/// The places where a non-empty pattern occurs, without overlapping.
pub fn find_matches(c: &[char], p: &[char]) -> (r: Vec<usize>)
    ensures
        r@.map_values(|x: usize| x as int) == matches_from(c@, p@, 0),
        forall|k: int| 0 <= k < r@.len() ==> #[trigger] r@[k] + p@.len() <= c@.len() && occurs_at(c@, p@, r@[k] as int),
{
    let mut out: Vec<usize> = Vec::new();
    if p.len() == 0 {
        assert(out@.map_values(|x: usize| x as int) =~= Seq::<int>::empty());
        return out;
    }
    let mut i: usize = 0;
    assert(out@.map_values(|x: usize| x as int) =~= Seq::<int>::empty());
    while i <= c.len() && p.len() <= c.len() - i
        invariant
            p@.len() > 0,
            matches_from(c@, p@, 0) == out@.map_values(|x: usize| x as int) + matches_from(c@, p@, i as int),
            forall|k: int| 0 <= k < out@.len() ==> #[trigger] out@[k] + p@.len() <= c@.len() && occurs_at(c@, p@, out@[k] as int),
        decreases c.len() + 1 - i,
    {
        if chars_occur_at(c, p, i) {
            let ghost prev = out@;
            out.push(i);
            assert(out@.map_values(|x: usize| x as int) =~= prev.map_values(|x: usize| x as int).push(i as int));
            assert(prev.map_values(|x: usize| x as int) + matches_from(c@, p@, i as int) =~= out@.map_values(|x: usize| x as int)
                + matches_from(c@, p@, i + p@.len()));
            i = i + p.len();
        } else {
            i = i + 1;
        }
    }
    assert(out@.map_values(|x: usize| x as int) + matches_from(c@, p@, i as int) =~= out@.map_values(|x: usize| x as int));
    out
}


/// The places where a pattern occurs in `c[lo..hi]` and ends a word.
pub fn find_word_matches(c: &[char], p: &[char], lo: usize, hi: usize) -> (r: Vec<usize>)
    requires
        lo <= hi <= c@.len(),
    ensures
        r@.map_values(|x: usize| x as int) == word_matches(c@, p@, lo as int, hi as int),
        forall|k: int| 0 <= k < r@.len() ==> lo <= #[trigger] r@[k] && r@[k] + p@.len() <= hi,
{
    let sub = sub_chars(c, lo, hi);
    let ms = find_matches(sub.as_slice(), p);
    let ghost all = matches_from(sub@, p@, 0).map_values(|m: int| m + lo);
    let mut out: Vec<usize> = Vec::new();
    let mut i: usize = 0;
    let ghost plen = p@.len() as int;
    assert(all.take(0) =~= Seq::<int>::empty());
    assert(out@.map_values(|x: usize| x as int) =~= Seq::<int>::empty());
    while i < ms.len()
        invariant
            lo <= hi <= c@.len(),
            sub@ == c@.subrange(lo as int, hi as int),
            i <= ms@.len(),
            ms@.map_values(|x: usize| x as int) == matches_from(sub@, p@, 0),
            forall|k: int| 0 <= k < ms@.len() ==> #[trigger] ms@[k] + p@.len() <= sub@.len(),
            all == matches_from(sub@, p@, 0).map_values(|m: int| m + lo),
            plen == p@.len(),
            out@.map_values(|x: usize| x as int) == keep_word_ends(c@, all.take(i as int), plen),
            forall|k: int| 0 <= k < out@.len() ==> lo <= #[trigger] out@[k] && out@[k] + p@.len() <= hi,
        decreases ms.len() - i,
    {
        assert(ms@.map_values(|x: usize| x as int)[i as int] == ms@[i as int] as int);
        assert(all[i as int] == ms@[i as int] + lo);
        let m = ms[i] + lo;
        let e = m + p.len();
        let keep = e >= c.len() || !is_word_char(c[e]);
        assert(all.take(i + 1) =~= all.take(i as int).push(all[i as int]));
        assert(all.take(i + 1).drop_last() =~= all.take(i as int));
        let ghost prev = out@;
        if keep {
            out.push(m);
            assert(out@.map_values(|x: usize| x as int) =~= prev.map_values(|x: usize| x as int).push(m as int));
        }
        assert(out@.map_values(|x: usize| x as int) =~= keep_word_ends(c@, all.take(i + 1), plen));
        i = i + 1;
    }
    assert(all.take(i as int) =~= all);
    out
}

/// The first index at or after a 1-based position.
fn index_exec(c: &[char], line: u32, col: u32) -> (r: usize)
    requires
        c@.len() < u32::MAX,
    ensures
        r == index_from(c@, line as int, col as int, 0),
        r <= c@.len(),
{
    let n = c.len();
    let mut k: usize = 0;
    let mut l: usize = 1;
    let mut cl: usize = 1;
    while k < n
        invariant
            n == c@.len(),
            n < u32::MAX,
            k <= n,
            (l as int, cl as int) == line_col(c@, k as int),
            index_from(c@, line as int, col as int, 0) == index_from(c@, line as int, col as int, k as int),
        decreases n - k,
    {
        if (line as usize) < l || (line as usize == l && col as usize <= cl) {
            return k;
        }
        proof {
            lemma_line_col_bounds(c@, k as int);
            lemma_line_col_bounds(c@, (k + 1) as int);
        }
        let ch = c[k];
        if ch == '\n' && k >= 1 && c[k - 1] == '\r' {
        } else if ch == '\n' || ch == '\r' {
            l = l + 1;
            cl = 1;
        } else {
            cl = cl + 1;
        }
        k = k + 1;
    }
    n
}

/// The first `{` from index `k` on, or the length.
fn brace_exec(c: &[char], k: usize) -> (r: usize)
    requires
        k <= c@.len(),
    ensures
        r == brace_from(c@, k as int),
        r <= c@.len(),
{
    let n = c.len();
    let mut i = k;
    while i < n
        invariant
            n == c@.len(),
            k <= i <= n,
            brace_from(c@, k as int) == brace_from(c@, i as int),
        decreases n - i,
    {
        if c[i] == '{' {
            return i;
        }
        i = i + 1;
    }
    n
}

/// Where a block's code lies in the text.
pub fn block_span_exec(c: &[char], r: TextRange) -> (out: (usize, usize))
    requires
        c@.len() < u32::MAX,
    ensures
        (out.0 as int, out.1 as int) == block_span(c@, r),
        out.0 <= out.1 <= c@.len(),
{
    let n = c.len();
    let a = index_exec(c, r.start.line, r.start.character);
    let b = brace_exec(c, a);
    let lo = if b < n { b + 1 } else { n };
    let e = index_exec(c, r.end.line, r.end.character);
    let hi = if e > 0 { e - 1 } else { 0 };
    (lo, if hi < lo { lo } else { hi })
}
/// The number of line feeds in `c`.
pub open spec fn newlines(c: Seq<char>) -> int
    decreases c.len(),
{
    if c.len() == 0 { 0 } else { newlines(c.drop_last()) + if c.last() == '\n' { 1int } else { 0int } }
}

/// The index just after the last line feed in `c`, or 0.
pub open spec fn line_begin(c: Seq<char>) -> int
    decreases c.len(),
{
    if c.len() == 0 { 0 } else if c.last() == '\n' { c.len() as int } else { line_begin(c.drop_last()) }
}

/// The line (counted from `base`) and byte column of character index `k`.
pub open spec fn line_col_of(c: Seq<char>, k: int, base: int) -> (int, int) {
    (base + newlines(c.take(k)), bytes(c, k) - bytes(c, line_begin(c.take(k))))
}

proof fn lemma_line_begin(c: Seq<char>)
    ensures
        0 <= line_begin(c) <= c.len(),
        newlines(c) <= c.len(),
    decreases c.len(),
{
    if c.len() > 0 {
        lemma_line_begin(c.drop_last());
    }
}

/// The position of character index `k`, its line counted from `base`. The
/// text must be shorter than `u32::MAX` bytes and the line must fit.
pub fn offset_to_line_col(c: &[char], k: usize, base_line: u32) -> (r: TextPosition)
    requires
        k <= c@.len(),
        utf8_len(c@) < u32::MAX,
        base_line + newlines(c@.take(k as int)) <= u32::MAX,
    ensures
        (r.line as int, r.character as int) == line_col_of(c@, k as int, base_line as int),
{
    let mut nl: u32 = 0;
    let mut begin: usize = 0;
    let mut i: usize = 0;
    assert(c@.take(0) =~= Seq::<char>::empty());
    proof {
        crate::text::lemma_utf8_len_ge(c@);
        lemma_line_begin(c@.take(k as int));
    }
    while i < k
        invariant
            i <= k <= c@.len(),
            c@.len() < u32::MAX,
            nl as int == newlines(c@.take(i as int)),
            nl <= i,
            begin as int == line_begin(c@.take(i as int)),
            begin <= i,
        decreases k - i,
    {
        assert(c@.take(i + 1).drop_last() =~= c@.take(i as int));
        if c[i] == '\n' {
            nl = nl + 1;
            begin = i + 1;
        }
        i = i + 1;
    }
    let bk = crate::document::bytes_to(c, k);
    let bb = crate::document::bytes_to(c, begin);
    proof {
        lemma_utf8_len_sub(c@, begin as int, k as int);
        lemma_utf8_len_sub(c@, k as int, c@.len() as int);
        assert(c@.take(c@.len() as int) =~= c@);
    }
    TextPosition { line: base_line + nl, character: (bk - bb) as u32 }
}

/// Whether a position lies within a range, both ends included.
pub open spec fn in_range(line: u32, character: u32, r: TextRange) -> bool {
    (line > r.start.line || (line == r.start.line && character >= r.start.character))
        && (line < r.end.line || (line == r.end.line && character <= r.end.character))
}

pub fn position_in_range(line: u32, character: u32, range: TextRange) -> (r: bool)
    ensures
        r == in_range(line, character, range),
{
    (line > range.start.line || (line == range.start.line && character >= range.start.character))
        && (line < range.end.line || (line == range.end.line && character <= range.end.character))
}

/// The first parameter whose range holds the position.
pub open spec fn param_at(params: Seq<ParameterView>, line: u32, character: u32) -> Option<ParameterView>
    decreases params.len(),
{
    if params.len() == 0 {
        None
    } else if in_range(line, character, params[0].range) {
        Some(params[0])
    } else {
        param_at(params.drop_first(), line, character)
    }
}

/// The first parameter named by a word, directly or as
/// `materialParams_<name>`.
pub open spec fn param_named(params: Seq<ParameterView>, word: Seq<char>) -> Option<ParameterView>
    decreases params.len(),
{
    if params.len() == 0 {
        None
    } else if params[0].name == word || param_name_of(word) == Some(params[0].name) {
        Some(params[0])
    } else {
        param_named(params.drop_first(), word)
    }
}

/// The parameter a rename at a position is about: the one whose definition
/// holds the position, else the one the word at the position names.
pub open spec fn rename_target(params: Seq<ParameterView>, text: Seq<char>, line: u32, character: u32) -> Option<Seq<char>> {
    match param_at(params, line, character) {
        Some(p) => Some(p.name),
        None => match word_around(text, position_index(text, line as int, character as int)) {
            Some(w) => match param_named(params, w) {
                Some(p) => Some(p.name),
                None => None,
            },
            None => None,
        },
    }
}

/// An edit: a range and the text that replaces it.
pub struct TextEdit {
    pub range: TextRange,
    pub new_text: String,
}

pub open spec fn edit_view(e: TextEdit) -> (TextRange, Seq<char>) {
    (e.range, e.new_text@)
}

pub open spec fn edits_view(s: Seq<TextEdit>) -> Seq<(TextRange, Seq<char>)> {
    s.map_values(|e: TextEdit| edit_view(e))
}

/// The edit that replaces `len` bytes from character index `k` of `c`
/// (lines counted from `base`).
pub open spec fn edit_at(c: Seq<char>, k: int, base: int, len: int, new_text: Seq<char>) -> (TextRange, Seq<char>) {
    let p = line_col_of(c, k, base);
    (TextRange {
        start: TextPosition { line: p.0 as u32, character: p.1 as u32 },
        end: TextPosition { line: p.0 as u32, character: (p.1 + len) as u32 },
    }, new_text)
}

/// The edits for the matches of `pat` in `c`: each replaces `len` bytes
/// starting `shift` characters into the match.
pub open spec fn match_edits(c: Seq<char>, ms: Seq<int>, shift: int, base: int, len: int, new_text: Seq<char>) -> Seq<(TextRange, Seq<char>)> {
    ms.map_values(|m: int| edit_at(c, m + shift, base, len, new_text))
}

/// The edits of renaming parameter `old` to `new`: its `name : old` and
/// `name:old` fields in the text, then, within the code of each shader
/// block (between its braces), its `materialParams_old` and
/// `materialParams.old` uses. Each match
/// counts only where no name character follows it, and every edit is placed
/// at the match's own place in the text (lines and byte columns from 0).
pub open spec fn rename_edits_spec(text: Seq<char>, shaders: Seq<ShaderBlockView>, old: Seq<char>, new: Seq<char>) -> Seq<(TextRange, Seq<char>)> {
    let p1 = "name : "@ + old;
    let p2 = "name:"@ + old;
    match_edits(text, word_matches(text, p1, 0, text.len() as int), 7, 0, utf8_len(old) as int, new)
        + match_edits(text, word_matches(text, p2, 0, text.len() as int), 5, 0, utf8_len(old) as int, new)
        + shader_rename_edits(text, shaders, old, new)
}

pub open spec fn shader_rename_edits(text: Seq<char>, shaders: Seq<ShaderBlockView>, old: Seq<char>, new: Seq<char>) -> Seq<(TextRange, Seq<char>)>
    decreases shaders.len(),
{
    if shaders.len() == 0 {
        seq![]
    } else {
        let sh = shaders.last();
        let (lo, hi) = block_span(text, sh.range);
        let u = "materialParams_"@ + old;
        let d = "materialParams."@ + old;
        shader_rename_edits(text, shaders.drop_last(), old, new)
            + match_edits(text, word_matches(text, u, lo, hi), 0, 0, utf8_len(u) as int, "materialParams_"@ + new)
            + match_edits(text, word_matches(text, d, lo, hi), 0, 0, utf8_len(d) as int, "materialParams."@ + new)
    }
}

/// What a rename at a position does: nothing without a target or edits,
/// else the edits.
pub open spec fn rename_spec(text: Seq<char>, m: MatFileViewParts, line: u32, character: u32, new: Seq<char>) -> Option<Seq<(TextRange, Seq<char>)>> {
    match rename_target(m.0, text, line, character) {
        None => None,
        Some(old) => {
            let e = rename_edits_spec(text, m.1, old, new);
            if e.len() == 0 { None } else { Some(e) }
        },
    }
}

/// The parts of a parsed file that a rename reads: the parameters and the
/// shader blocks.
pub type MatFileViewParts = (Seq<ParameterView>, Seq<ShaderBlockView>);

/// The sizes within which the positions of a rename fit in 32 bits.
pub open spec fn rename_fits(text: Seq<char>, old: Seq<char>) -> bool {
    utf8_len(text) + utf8_len(old) + 16 < u32::MAX
}

/// The range `len` bytes long from character index `k` of a text.
fn range_at(c: &[char], k: usize, len: u32) -> (r: TextRange)
    requires
        k <= c@.len(),
        utf8_len(c@) < u32::MAX,
        utf8_len(c@) + len <= u32::MAX,
    ensures
        r == edit_at(c@, k as int, 0, len as int, seq![]).0,
{
    proof {
        crate::text::lemma_utf8_len_ge(c@);
        lemma_line_begin(c@.take(k as int));
        lemma_utf8_len_sub(c@, k as int, c@.len() as int);
        lemma_utf8_len_sub(c@, 0, k as int);
        assert(c@.take(c@.len() as int) =~= c@);
        assert(c@.subrange(0, k as int) =~= c@.take(k as int));
        lemma_utf8_len_sub(c@, line_begin(c@.take(k as int)), k as int);
    }
    let p = offset_to_line_col(c, k, 0);
    TextRange {
        start: TextPosition { line: p.line, character: p.character },
        end: TextPosition { line: p.line, character: p.character + len },
    }
}

/// Appends the edits at the places `ms` of a text.
fn push_edits_at(out: &mut Vec<TextEdit>, c: &[char], ms: &Vec<usize>, plen: usize, shift: usize, len: u32, new_text: &[char])
    requires
        utf8_len(c@) < u32::MAX,
        shift <= plen,
        forall|k: int| 0 <= k < ms@.len() ==> #[trigger] ms@[k] + plen <= c@.len(),
        utf8_len(c@) + len <= u32::MAX,
    ensures
        edits_view(final(out)@) == edits_view(old(out)@) + match_edits(c@, ms@.map_values(|x: usize| x as int), shift as int, 0, len as int, new_text@),
{
    let ghost msv = ms@.map_values(|x: usize| x as int);
    let ghost o = edits_view(out@);
    let mut i: usize = 0;
    assert(msv.take(0) =~= Seq::<int>::empty());
    while i < ms.len()
        invariant
            i <= ms@.len(),
            msv == ms@.map_values(|x: usize| x as int),
            forall|k: int| 0 <= k < ms@.len() ==> #[trigger] ms@[k] + plen <= c@.len(),
            utf8_len(c@) < u32::MAX,
            shift <= plen,
            utf8_len(c@) + len <= u32::MAX,
            edits_view(out@) == o + match_edits(c@, msv.take(i as int), shift as int, 0, len as int, new_text@),
        decreases ms.len() - i,
    {
        proof {
            crate::text::lemma_utf8_len_ge(c@);
        }
        let k = ms[i] + shift;
        let range = range_at(c, k, len);
        let e = TextEdit { range, new_text: chars_to_string(new_text) };
        let ghost prev = out@;
        out.push(e);
        assert(edits_view(out@) =~= edits_view(prev).push(edit_view(e)));
        assert(msv.take(i + 1) =~= msv.take(i as int).push(msv[i as int]));
        assert(match_edits(c@, msv.take(i + 1), shift as int, 0, len as int, new_text@) =~= match_edits(
            c@,
            msv.take(i as int),
            shift as int,
            0,
            len as int,
            new_text@,
        ).push(edit_at(c@, msv[i as int] + shift, 0, len as int, new_text@)));
        i = i + 1;
    }
    assert(msv.take(i as int) =~= msv);
}

/// The first parameter whose definition holds a position.
fn param_at_exec(params: &Vec<crate::parser::Parameter>, line: u32, character: u32) -> (r: Option<usize>)
    ensures
        match param_at(params_view(params@), line, character) {
            Some(p) => r is Some && r.unwrap() < params@.len() && params@[r.unwrap() as int]@ == p,
            None => r is None,
        },
{
    let ghost pv = params_view(params@);
    let mut i: usize = 0;
    assert(pv.skip(0) =~= pv);
    while i < params.len()
        invariant
            i <= params@.len(),
            pv == params_view(params@),
            param_at(pv, line, character) == param_at(pv.skip(i as int), line, character),
        decreases params.len() - i,
    {
        assert(pv.skip(i as int).drop_first() =~= pv.skip(i + 1));
        assert(pv.skip(i as int)[0] == params@[i as int]@);
        if position_in_range(line, character, params[i].range) {
            return Some(i);
        }
        i = i + 1;
    }
    None
}

/// The first parameter a word names.
fn param_named_exec(params: &Vec<crate::parser::Parameter>, word: &str) -> (r: Option<usize>)
    ensures
        match param_named(params_view(params@), word@) {
            Some(p) => r is Some && r.unwrap() < params@.len() && params@[r.unwrap() as int]@ == p,
            None => r is None,
        },
{
    let ghost pv = params_view(params@);
    let stripped = param_name_from_word(word);
    let mut i: usize = 0;
    assert(pv.skip(0) =~= pv);
    while i < params.len()
        invariant
            i <= params@.len(),
            pv == params_view(params@),
            param_named(pv, word@) == param_named(pv.skip(i as int), word@),
            match param_name_of(word@) {
                Some(n) => stripped is Some && stripped.unwrap()@ == n,
                None => stripped is None,
            },
        decreases params.len() - i,
    {
        assert(pv.skip(i as int).drop_first() =~= pv.skip(i + 1));
        assert(pv.skip(i as int)[0] == params@[i as int]@);
        let by_prefix = match &stripped {
            Some(n) => str_eq(n.as_str(), params[i].name.as_str()),
            None => false,
        };
        if str_eq(params[i].name.as_str(), word) || by_prefix {
            return Some(i);
        }
        i = i + 1;
    }
    None
}

/// The name of the parameter a rename at a position is about.
pub fn find_rename_target(doc: &Document, material: &Material, line: u32, character: u32) -> (r: Option<String>)
    requires
        doc.wf(),
    ensures
        match rename_target(params_view(material.parameters@), doc.text@, line, character) {
            Some(n) => r is Some && r.unwrap()@ == n,
            None => r is None,
        },
{
    match param_at_exec(&material.parameters, line, character) {
        Some(i) => Some(material.parameters[i].name.clone()),
        None => match word_at_position(doc, line, character) {
            Some(w) => match param_named_exec(&material.parameters, w.as_str()) {
                Some(i) => Some(material.parameters[i].name.clone()),
                None => None,
            },
            None => None,
        },
    }
}

fn concat_chars(a: &str, b: &str) -> (r: Vec<char>)
    ensures
        r@ == a@ + b@,
{
    let mut v: Vec<char> = Vec::new();
    push_str_chars(&mut v, a);
    push_str_chars(&mut v, b);
    assert(v@ =~= a@ + b@);
    v
}

/// The edits of renaming parameter `old` to `new`.
pub fn rename_edits(text: &str, shaders: &Vec<ShaderBlock>, old: &str, new: &str) -> (r: Vec<TextEdit>)
    requires
        rename_fits(text@, old@),
    ensures
        edits_view(r@) == rename_edits_spec(text@, shaders_view(shaders@), old@, new@),
{
    proof {
        reveal_strlit("name : ");
        reveal_strlit("name:");
        reveal_strlit("materialParams_");
        reveal_strlit("materialParams.");
    }
    let c = str_to_chars(text);
    let oc = str_to_chars(old);
    let nc = str_to_chars(new);
    let n = c.len();
    let old_len = crate::semantic_tokens::byte_len_u32_chars(oc.as_slice());
    proof {
        crate::text::lemma_utf8_len_ge(c@);
        assert(utf8_len(oc@) % 0x1_0000_0000 == utf8_len(oc@)) by {
            vstd::arithmetic::div_mod::lemma_small_mod(utf8_len(oc@), 0x1_0000_0000);
        }
    }
    let mut edits: Vec<TextEdit> = Vec::new();
    assert(edits_view(edits@) =~= Seq::<(TextRange, Seq<char>)>::empty());
    let p1 = concat_chars("name : ", old);
    let m1 = find_word_matches(c.as_slice(), p1.as_slice(), 0, n);
    push_edits_at(&mut edits, c.as_slice(), &m1, p1.len(), 7, old_len, nc.as_slice());
    let p2 = concat_chars("name:", old);
    let m2 = find_word_matches(c.as_slice(), p2.as_slice(), 0, n);
    push_edits_at(&mut edits, c.as_slice(), &m2, p2.len(), 5, old_len, nc.as_slice());
    let ghost head = edits_view(edits@);
    let ghost sv = shaders_view(shaders@);
    let mut i: usize = 0;
    assert(sv.take(0) =~= Seq::<ShaderBlockView>::empty());
    assert(head + shader_rename_edits(text@, sv.take(0), old@, new@) =~= head);
    while i < shaders.len()
        invariant
            i <= shaders@.len(),
            sv == shaders_view(shaders@),
            rename_fits(text@, old@),
            c@ == text@,
            n == c@.len(),
            edits_view(edits@) == head + shader_rename_edits(text@, sv.take(i as int), old@, new@),
        decreases shaders.len() - i,
    {
        proof {
            reveal_strlit("materialParams_");
            reveal_strlit("materialParams.");
            crate::text::lemma_utf8_len_ge(c@);
        }
        let sh = &shaders[i];
        assert(sv[i as int] == sh@);
        let (lo, hi) = block_span_exec(c.as_slice(), sh.range);
        let u = concat_chars("materialParams_", old);
        let d = concat_chars("materialParams.", old);
        let nu = concat_chars("materialParams_", new);
        let nd = concat_chars("materialParams.", new);
        let ulen = crate::semantic_tokens::byte_len_u32_chars(u.as_slice());
        let dlen = crate::semantic_tokens::byte_len_u32_chars(d.as_slice());
        proof {
            crate::text::lemma_utf8_len_concat("materialParams_"@, old@);
            crate::text::lemma_utf8_len_concat("materialParams."@, old@);
            lemma_ascii_len("materialParams_"@);
            lemma_ascii_len("materialParams."@);
            vstd::arithmetic::div_mod::lemma_small_mod(utf8_len(u@), 0x1_0000_0000);
            vstd::arithmetic::div_mod::lemma_small_mod(utf8_len(d@), 0x1_0000_0000);
        }
        let mu = find_word_matches(c.as_slice(), u.as_slice(), lo, hi);
        push_edits_at(&mut edits, c.as_slice(), &mu, u.len(), 0, ulen, nu.as_slice());
        let md = find_word_matches(c.as_slice(), d.as_slice(), lo, hi);
        push_edits_at(&mut edits, c.as_slice(), &md, d.len(), 0, dlen, nd.as_slice());
        assert(sv.take(i + 1).drop_last() =~= sv.take(i as int));
        assert(edits_view(edits@) =~= head + shader_rename_edits(text@, sv.take(i + 1), old@, new@));
        i = i + 1;
    }
    assert(sv.take(i as int) =~= sv);
    edits
}

/// A text of ASCII letters, digits and punctuation takes one byte per
/// character.
proof fn lemma_ascii_len(s: Seq<char>)
    requires
        forall|i: int| 0 <= i < s.len() ==> ((#[trigger] s[i]) as u32) < 0x80,
    ensures
        utf8_len(s) == s.len(),
    decreases s.len(),
{
    if s.len() > 0 {
        lemma_ascii_len(s.drop_last());
    }
}

/// Renames the parameter at a position: the edits of its definition and of
/// its uses in shader code; none without a parameter there or without edits.
pub fn handle_rename(doc: &Document, matfile: &MatFile, line: u32, character: u32, new_name: &str) -> (r: Option<Vec<TextEdit>>)
    requires
        doc.wf(),
        forall|i: int| 0 <= i < matfile.material.parameters@.len() ==> rename_fits(doc.text@,
            (#[trigger] matfile.material.parameters@[i]).name@),
    ensures
        match rename_spec(doc.text@, (params_view(matfile.material.parameters@), shaders_view(matfile.shaders@)), line, character, new_name@) {
            Some(e) => r is Some && edits_view(r.unwrap()@) == e,
            None => r is None,
        },
{
    let target = find_rename_target(doc, &matfile.material, line, character);
    match target {
        None => None,
        Some(old) => {
            proof {
                lemma_target_is_param(params_view(matfile.material.parameters@), doc.text@, line, character);
                let k = choose|k: int| 0 <= k < matfile.material.parameters@.len() && (#[trigger] matfile.material.parameters@[k]).name@ == old@;
                assert(rename_fits(doc.text@, matfile.material.parameters@[k].name@));
            }
            let edits = rename_edits(doc.text.as_str(), &matfile.shaders, old.as_str(), new_name);
            if edits.len() == 0 {
                None
            } else {
                Some(edits)
            }
        },
    }
}

/// A rename target is the name of one of the parameters.
proof fn lemma_target_is_param(params: Seq<ParameterView>, text: Seq<char>, line: u32, character: u32)
    ensures
        rename_target(params, text, line, character) matches Some(n) ==> exists|k: int| 0 <= k < params.len() && (#[trigger] params[k]).name == n,
{
    lemma_param_at_in(params, line, character);
    match word_around(text, position_index(text, line as int, character as int)) {
        Some(w) => lemma_param_named_in(params, w),
        None => {},
    }
}

proof fn lemma_param_at_in(params: Seq<ParameterView>, line: u32, character: u32)
    ensures
        param_at(params, line, character) matches Some(p) ==> exists|k: int| 0 <= k < params.len() && (#[trigger] params[k]) == p,
    decreases params.len(),
{
    if params.len() > 0 && !in_range(line, character, params[0].range) {
        lemma_param_at_in(params.drop_first(), line, character);
        if let Some(p) = param_at(params, line, character) {
            let k = choose|k: int| 0 <= k < params.drop_first().len() && (#[trigger] params.drop_first()[k]) == p;
            assert(params[k + 1] == p);
        }
    } else if params.len() > 0 {
        assert(params[0] == params[0]);
    }
}

proof fn lemma_param_named_in(params: Seq<ParameterView>, w: Seq<char>)
    ensures
        param_named(params, w) matches Some(p) ==> exists|k: int| 0 <= k < params.len() && (#[trigger] params[k]) == p,
    decreases params.len(),
{
    if params.len() > 0 && !(params[0].name == w || param_name_of(w) == Some(params[0].name)) {
        lemma_param_named_in(params.drop_first(), w);
        if let Some(p) = param_named(params, w) {
            let k = choose|k: int| 0 <= k < params.drop_first().len() && (#[trigger] params.drop_first()[k]) == p;
            assert(params[k + 1] == p);
        }
    } else if params.len() > 0 {
        assert(params[0] == params[0]);
    }
}


/// A place where a parameter is defined (written) or used (read).
#[derive(Debug, Clone, Copy, PartialEq, Eq, Structural)]
pub struct Reference {
    pub range: TextRange,
    pub is_write: bool,
}

/// A use found at character index `k` of the text, `len` bytes long, at
/// its place in the text (line and byte column from 0).
pub open spec fn text_ref(text: Seq<char>, k: int, len: int) -> Reference {
    Reference { range: edit_at(text, k, 0, len, seq![]).0, is_write: false }
}

/// The uses at the places `ms`, each `shift` characters in.
pub open spec fn text_refs(text: Seq<char>, ms: Seq<int>, shift: int, len: int) -> Seq<Reference> {
    ms.map_values(|m: int| text_ref(text, m + shift, len))
}

/// The definitions of parameters named `symbol`, in order.
pub open spec fn definition_refs(params: Seq<ParameterView>, symbol: Seq<char>) -> Seq<Reference>
    decreases params.len(),
{
    if params.len() == 0 {
        seq![]
    } else {
        definition_refs(params.drop_last(), symbol) + if params.last().name == symbol {
            seq![Reference { range: params.last().range, is_write: true }]
        } else {
            seq![]
        }
    }
}

/// The uses of `symbol` in the shader blocks, found in the text within the
/// code of each block (between its braces): `materialParams.symbol`, then
/// `materialParams_symbol`, block by block. A match counts only where no
/// name character follows it; the reference covers the symbol after the
/// prefix.
pub open spec fn shader_refs(text: Seq<char>, shaders: Seq<ShaderBlockView>, symbol: Seq<char>) -> Seq<Reference>
    decreases shaders.len(),
{
    if shaders.len() == 0 {
        seq![]
    } else {
        let sh = shaders.last();
        let (lo, hi) = block_span(text, sh.range);
        let n = utf8_len(symbol) as int;
        shader_refs(text, shaders.drop_last(), symbol)
            + text_refs(text, word_matches(text, "materialParams."@ + symbol, lo, hi), 15, n)
            + text_refs(text, word_matches(text, "materialParams_"@ + symbol, lo, hi), 15, n)
    }
}

/// Within these sizes the positions of references fit in 32 bits.
pub open spec fn refs_fit(text: Seq<char>, symbol: Seq<char>) -> bool {
    utf8_len(text) + utf8_len(symbol) < u32::MAX
}

fn push_refs_at(out: &mut Vec<Reference>, c: &[char], ms: &Vec<usize>, plen: usize, shift: usize, len: u32)
    requires
        utf8_len(c@) < u32::MAX,
        shift <= plen,
        forall|k: int| 0 <= k < ms@.len() ==> #[trigger] ms@[k] + plen <= c@.len(),
        utf8_len(c@) + len <= u32::MAX,
    ensures
        final(out)@ == old(out)@ + text_refs(c@, ms@.map_values(|x: usize| x as int), shift as int, len as int),
{
    let ghost msv = ms@.map_values(|x: usize| x as int);
    let ghost o = out@;
    let mut i: usize = 0;
    assert(msv.take(0) =~= Seq::<int>::empty());
    while i < ms.len()
        invariant
            i <= ms@.len(),
            msv == ms@.map_values(|x: usize| x as int),
            forall|k: int| 0 <= k < ms@.len() ==> #[trigger] ms@[k] + plen <= c@.len(),
            utf8_len(c@) < u32::MAX,
            shift <= plen,
            utf8_len(c@) + len <= u32::MAX,
            out@ == o + text_refs(c@, msv.take(i as int), shift as int, len as int),
        decreases ms.len() - i,
    {
        proof {
            crate::text::lemma_utf8_len_ge(c@);
        }
        let k = ms[i] + shift;
        let range = range_at(c, k, len);
        out.push(Reference { range, is_write: false });
        assert(msv.take(i + 1) =~= msv.take(i as int).push(msv[i as int]));
        assert(text_refs(c@, msv.take(i + 1), shift as int, len as int) =~= text_refs(c@, msv.take(i as int), shift as int, len as int).push(
            text_ref(c@, msv[i as int] + shift, len as int),
        ));
        i = i + 1;
    }
    assert(msv.take(i as int) =~= msv);
}

/// Every reference to a parameter in a document of text `text`: its
/// definitions (written), then its uses in shader code (read), found where
/// they stand in the text.
pub fn find_all_refs(text: &str, matfile: &MatFile, symbol: &str) -> (r: Vec<Reference>)
    requires
        refs_fit(text@, symbol@),
    ensures
        r@ == definition_refs(params_view(matfile.material.parameters@), symbol@) + shader_refs(text@, shaders_view(matfile.shaders@), symbol@),
{
    let mut refs: Vec<Reference> = Vec::new();
    let ghost pv = params_view(matfile.material.parameters@);
    let mut i: usize = 0;
    assert(pv.take(0) =~= Seq::<ParameterView>::empty());
    while i < matfile.material.parameters.len()
        invariant
            i <= matfile.material.parameters@.len(),
            pv == params_view(matfile.material.parameters@),
            refs@ == definition_refs(pv.take(i as int), symbol@),
        decreases matfile.material.parameters.len() - i,
    {
        assert(pv.take(i + 1).drop_last() =~= pv.take(i as int));
        assert(pv[i as int] == matfile.material.parameters@[i as int]@);
        if str_eq(matfile.material.parameters[i].name.as_str(), symbol) {
            refs.push(Reference { range: matfile.material.parameters[i].range, is_write: true });
        }
        assert(refs@ =~= definition_refs(pv.take(i + 1), symbol@));
        i = i + 1;
    }
    assert(pv.take(i as int) =~= pv);
    let ghost head = refs@;
    let ghost sv = shaders_view(matfile.shaders@);
    let sc = str_to_chars(symbol);
    let c = str_to_chars(text);
    let sym_len = crate::semantic_tokens::byte_len_u32_chars(sc.as_slice());
    let mut j: usize = 0;
    assert(sv.take(0) =~= Seq::<ShaderBlockView>::empty());
    assert(head + shader_refs(text@, sv.take(0), symbol@) =~= head);
    while j < matfile.shaders.len()
        invariant
            j <= matfile.shaders@.len(),
            sv == shaders_view(matfile.shaders@),
            refs_fit(text@, symbol@),
            sc@ == symbol@,
            c@ == text@,
            sym_len == (utf8_len(symbol@) % 0x1_0000_0000) as u32,
            refs@ == head + shader_refs(text@, sv.take(j as int), symbol@),
        decreases matfile.shaders.len() - j,
    {
        proof {
            reveal_strlit("materialParams.");
            reveal_strlit("materialParams_");
            crate::text::lemma_utf8_len_ge(c@);
        }
        let sh = &matfile.shaders[j];
        assert(sv[j as int] == sh@);
        proof {
            vstd::arithmetic::div_mod::lemma_small_mod(utf8_len(symbol@), 0x1_0000_0000);
        }
        let (lo, hi) = block_span_exec(c.as_slice(), sh.range);
        let d = concat_chars("materialParams.", symbol);
        let u = concat_chars("materialParams_", symbol);
        let md = find_word_matches(c.as_slice(), d.as_slice(), lo, hi);
        push_refs_at(&mut refs, c.as_slice(), &md, d.len(), 15, sym_len);
        let mu = find_word_matches(c.as_slice(), u.as_slice(), lo, hi);
        push_refs_at(&mut refs, c.as_slice(), &mu, u.len(), 15, sym_len);
        assert(sv.take(j + 1).drop_last() =~= sv.take(j as int));
        assert(refs@ =~= head + shader_refs(text@, sv.take(j + 1), symbol@));
        j = j + 1;
    }
    assert(sv.take(j as int) =~= sv);
    assert(refs@ =~= definition_refs(pv, symbol@) + shader_refs(text@, sv, symbol@));
    refs
}

/// The ranges a word leads to: the `name` and `shadingModel` properties for
/// those words, then every parameter with that name.
pub open spec fn definition_ranges(m: MaterialView, word: Seq<char>) -> Seq<TextRange> {
    (match m.name {
        Some((_, r)) => if word == "name"@ { seq![r] } else { seq![] },
        None => seq![],
    }) + (match m.shading_model {
        Some((_, r)) => if word == "shadingModel"@ { seq![r] } else { seq![] },
        None => seq![],
    }) + definition_refs(m.parameters, word).map_values(|x: Reference| x.range)
}

/// Where a word is defined in a material.
pub fn find_definitions(material: &Material, word: &str) -> (r: Vec<TextRange>)
    ensures
        r@ == definition_ranges(material@, word@),
{
    let mut out: Vec<TextRange> = Vec::new();
    match &material.name {
        Some(n) => {
            if str_eq(word, "name") {
                out.push(n.range);
            }
        },
        None => {},
    }
    match &material.shading_model {
        Some(sm) => {
            if str_eq(word, "shadingModel") {
                out.push(sm.range);
            }
        },
        None => {},
    }
    let ghost head = out@;
    let ghost pv = params_view(material.parameters@);
    let mut i: usize = 0;
    assert(pv.take(0) =~= Seq::<ParameterView>::empty());
    assert(definition_refs(pv.take(0), word@).map_values(|x: Reference| x.range) =~= Seq::<TextRange>::empty());
    while i < material.parameters.len()
        invariant
            i <= material.parameters@.len(),
            pv == params_view(material.parameters@),
            out@ == head + definition_refs(pv.take(i as int), word@).map_values(|x: Reference| x.range),
        decreases material.parameters.len() - i,
    {
        assert(pv.take(i + 1).drop_last() =~= pv.take(i as int));
        assert(pv[i as int] == material.parameters@[i as int]@);
        if str_eq(material.parameters[i].name.as_str(), word) {
            out.push(material.parameters[i].range);
        }
        assert(out@ =~= head + definition_refs(pv.take(i + 1), word@).map_values(|x: Reference| x.range));
        i = i + 1;
    }
    assert(pv.take(i as int) =~= pv);
    out
}

/// A quick fix: its title, where it inserts and what.
pub struct QuickFix {
    pub title: String,
    pub position: TextPosition,
    pub new_text: String,
}

/// The quick fixes of a material: add a missing `name`, add a missing
/// `shadingModel`, each just inside the block's start.
pub open spec fn quick_fixes_spec(m: MaterialView) -> Seq<(Seq<char>, TextPosition, Seq<char>)> {
    let pos = TextPosition { line: m.range.start.line, character: crate::parser::sat_col(m.range.start.character + 1) };
    (if m.name is None { seq![("Add missing 'name' property"@, pos, "\n    name : MyMaterial,"@)] } else { seq![] })
        + (if m.shading_model is None { seq![("Add missing 'shadingModel' property"@, pos, "\n    shadingModel : lit,"@)] } else { seq![] })
}

pub open spec fn fixes_view(s: Seq<QuickFix>) -> Seq<(Seq<char>, TextPosition, Seq<char>)> {
    s.map_values(|f: QuickFix| (f.title@, f.position, f.new_text@))
}

/// The quick fixes for the missing properties of a material.
pub fn quick_fixes(material: &Material) -> (r: Vec<QuickFix>)
    ensures
        fixes_view(r@) == quick_fixes_spec(material@),
{
    let c: u64 = material.range.start.character as u64 + 1;
    let ch: u32 = if c > u32::MAX as u64 { u32::MAX } else { c as u32 };
    let pos = TextPosition { line: material.range.start.line, character: ch };
    let mut out: Vec<QuickFix> = Vec::new();
    if material.name.is_none() {
        out.push(QuickFix { title: to_owned_string("Add missing 'name' property"), position: pos, new_text: to_owned_string("\n    name : MyMaterial,") });
    }
    if material.shading_model.is_none() {
        out.push(QuickFix {
            title: to_owned_string("Add missing 'shadingModel' property"),
            position: pos,
            new_text: to_owned_string("\n    shadingModel : lit,"),
        });
    }
    assert(fixes_view(out@) =~= quick_fixes_spec(material@));
    out
}

/// Whether two ranges share a position (ends included).
pub open spec fn ranges_meet(a: TextRange, b: TextRange) -> bool {
    !(b.end.line < a.start.line || (b.end.line == a.start.line && b.end.character < a.start.character)
        || b.start.line > a.end.line || (b.start.line == a.end.line && b.start.character > a.end.character))
}

pub fn text_ranges_overlap(a: TextRange, b: TextRange) -> (r: bool)
    ensures
        r == ranges_meet(a, b),
{
    !(b.end.line < a.start.line || (b.end.line == a.start.line && b.end.character < a.start.character)
        || b.start.line > a.end.line || (b.start.line == a.end.line && b.start.character > a.end.character))
}

/// An inlay hint: where it shows, its label and its tooltip.
pub struct InlayHintData {
    pub position: TextPosition,
    pub label: String,
    pub tooltip: String,
}

pub open spec fn hints_view(s: Seq<InlayHintData>) -> Seq<(TextPosition, Seq<char>, Seq<char>)> {
    s.map_values(|h: InlayHintData| (h.position, h.label@, h.tooltip@))
}

/// The type hints of the parameters whose ranges meet `range`, in order.
pub open spec fn param_hints(params: Seq<ParameterView>, range: TextRange) -> Seq<(TextPosition, Seq<char>, Seq<char>)>
    decreases params.len(),
{
    if params.len() == 0 {
        seq![]
    } else {
        let p = params.last();
        param_hints(params.drop_last(), range) + if ranges_meet(range, p.range) {
            seq![(TextPosition { line: p.range.start.line, character: p.range.end.character }, ": "@ + p.param_type, "Parameter type"@)]
        } else {
            seq![]
        }
    }
}

/// The inlay hints of a material within a range: each parameter's type,
/// then the shading model's type.
pub open spec fn inlay_hints_spec(m: MaterialView, range: TextRange) -> Seq<(TextPosition, Seq<char>, Seq<char>)> {
    param_hints(m.parameters, range) + match m.shading_model {
        Some((_, r)) => if ranges_meet(range, r) {
            seq![(r.end, ": ShadingModel"@, "Shading model type"@)]
        } else {
            seq![]
        },
        None => seq![],
    }
}

/// The inlay hints of a parsed file within a range.
pub fn generate_inlay_hints(matfile: &MatFile, range: TextRange) -> (r: Vec<InlayHintData>)
    ensures
        hints_view(r@) == inlay_hints_spec(matfile.material@, range),
{
    let mut hints: Vec<InlayHintData> = Vec::new();
    let ghost pv = params_view(matfile.material.parameters@);
    let mut i: usize = 0;
    assert(pv.take(0) =~= Seq::<ParameterView>::empty());
    assert(hints_view(hints@) =~= Seq::<(TextPosition, Seq<char>, Seq<char>)>::empty());
    while i < matfile.material.parameters.len()
        invariant
            i <= matfile.material.parameters@.len(),
            pv == params_view(matfile.material.parameters@),
            hints_view(hints@) == param_hints(pv.take(i as int), range),
        decreases matfile.material.parameters.len() - i,
    {
        assert(pv.take(i + 1).drop_last() =~= pv.take(i as int));
        let p = &matfile.material.parameters[i];
        assert(pv[i as int] == p@);
        if text_ranges_overlap(range, p.range) {
            let mut label = to_owned_string(": ");
            crate::text::string_push_str(&mut label, p.param_type.as_str());
            let h = InlayHintData {
                position: TextPosition { line: p.range.start.line, character: p.range.end.character },
                label,
                tooltip: to_owned_string("Parameter type"),
            };
            let ghost prev = hints@;
            hints.push(h);
            assert(hints_view(hints@) =~= hints_view(prev).push((h.position, h.label@, h.tooltip@)));
        }
        assert(hints_view(hints@) =~= param_hints(pv.take(i + 1), range));
        i = i + 1;
    }
    assert(pv.take(i as int) =~= pv);
    let ghost head = hints_view(hints@);
    match &matfile.material.shading_model {
        Some(sm) => {
            if text_ranges_overlap(range, sm.range) {
                let h = InlayHintData { position: sm.range.end, label: to_owned_string(": ShadingModel"), tooltip: to_owned_string("Shading model type") };
                let ghost prev = hints@;
                hints.push(h);
                assert(hints_view(hints@) =~= hints_view(prev).push((h.position, h.label@, h.tooltip@)));
            }
        },
        None => {},
    }
    assert(hints_view(hints@) =~= inlay_hints_spec(matfile.material@, range));
    hints
}

/// How a highlighted place uses a symbol.
#[derive(Debug, Clone, Copy, PartialEq, Eq, Structural)]
pub enum DocumentHighlightKind {
    Read,
    Write,
}

/// A place to highlight, with how it uses the symbol.
#[derive(Debug, Clone, Copy, PartialEq, Eq, Structural)]
pub struct DocumentHighlight {
    pub range: TextRange,
    pub kind: DocumentHighlightKind,
}

pub open spec fn highlight_of(r: Reference) -> DocumentHighlight {
    DocumentHighlight {
        range: r.range,
        kind: if r.is_write { DocumentHighlightKind::Write } else { DocumentHighlightKind::Read },
    }
}

/// Every reference to `symbol` in a file: its definitions, then its uses in
/// shader code.
pub open spec fn all_refs(text: Seq<char>, m: MatFileView, symbol: Seq<char>) -> Seq<Reference> {
    definition_refs(m.material.parameters, symbol) + shader_refs(text, m.shaders, symbol)
}

/// The references to a symbol as highlights: definitions are writes, uses
/// in shader code are reads.
pub fn find_references(text: &str, matfile: &MatFile, symbol: &str) -> (r: Vec<DocumentHighlight>)
    requires
        refs_fit(text@, symbol@),
    ensures
        r@ == all_refs(text@, matfile@, symbol@).map_values(|x: Reference| highlight_of(x)),
{
    let refs = find_all_refs(text, matfile, symbol);
    let mut out: Vec<DocumentHighlight> = Vec::new();
    let mut i: usize = 0;
    while i < refs.len()
        invariant
            i <= refs@.len(),
            out@ == refs@.take(i as int).map_values(|x: Reference| highlight_of(x)),
        decreases refs.len() - i,
    {
        let x = refs[i];
        let kind = if x.is_write { DocumentHighlightKind::Write } else { DocumentHighlightKind::Read };
        out.push(DocumentHighlight { range: x.range, kind });
        assert(refs@.take(i + 1) =~= refs@.take(i as int).push(x));
        assert(out@ =~= refs@.take(i + 1).map_values(|x: Reference| highlight_of(x)));
        i = i + 1;
    }
    assert(refs@.take(i as int) =~= refs@);
    assert(matfile@.material.parameters == params_view(matfile.material.parameters@));
    assert(matfile@.shaders == shaders_view(matfile.shaders@));
    out
}

/// A place in a document.
#[derive(Debug, Clone, PartialEq, Eq)]
pub struct Location {
    pub uri: String,
    pub range: TextRange,
}

/// The references to a symbol as places in the document named `uri`.
pub fn find_reference_locations(text: &str, matfile: &MatFile, symbol: &str, uri: &str) -> (r: Vec<Location>)
    requires
        refs_fit(text@, symbol@),
    ensures
        r@.len() == all_refs(text@, matfile@, symbol@).len(),
        forall|i: int| 0 <= i < r@.len() ==> (#[trigger] r@[i]).uri@ == uri@ && r@[i].range == all_refs(text@, matfile@, symbol@)[i].range,
{
    let refs = find_all_refs(text, matfile, symbol);
    let mut out: Vec<Location> = Vec::new();
    let mut i: usize = 0;
    while i < refs.len()
        invariant
            i <= refs@.len(),
            out@.len() == i,
            forall|j: int| 0 <= j < i ==> (#[trigger] out@[j]).uri@ == uri@ && out@[j].range == refs@[j].range,
        decreases refs.len() - i,
    {
        out.push(Location { uri: to_owned_string(uri), range: refs[i].range });
        i = i + 1;
    }
    assert(matfile@.material.parameters == params_view(matfile.material.parameters@));
    assert(matfile@.shaders == shaders_view(matfile.shaders@));
    out
}

/// A byte offset that falls between two characters of `c` (or at an end).
pub open spec fn char_boundary(c: Seq<char>, off: int) -> bool {
    exists|k: int| 0 <= k <= c.len() && bytes(c, k) == off
}

/// The character index at a byte offset between characters.
pub open spec fn index_at_byte(c: Seq<char>, off: int) -> int {
    choose|k: int| 0 <= k <= c.len() && bytes(c, k) == off
}

/// Walking from character `i` (before `e`) with `count` UTF-16 units behind:
/// the index where `target` units are behind, or `e`.
pub open spec fn utf16_walk(c: Seq<char>, i: int, e: int, count: int, target: int) -> int
    decreases e - i,
{
    if i >= e || count >= target {
        i
    } else {
        utf16_walk(c, i + 1, e, count + utf16_len(c[i]), target)
    }
}

/// What a table of line starts (byte offsets) must hold for `line`: its
/// start, and the next line's start when there is one, fall between
/// characters, in order.
pub open spec fn line_table_ok(c: Seq<char>, offsets: Seq<usize>, line: int) -> bool {
    line < offsets.len() ==> {
        &&& char_boundary(c, offsets[line] as int)
        &&& line + 1 < offsets.len() ==> char_boundary(c, offsets[line + 1] as int) && offsets[line] <= offsets[line + 1]
    }
}

/// The word at a position given through a table of line starts: the line
/// is walked to the column; past the text's end there is none; else it is
/// the word around that character.
pub open spec fn word_at_line_offsets(c: Seq<char>, offsets: Seq<usize>, line: int, character: int) -> Option<Seq<char>> {
    if line >= offsets.len() {
        None
    } else {
        let s = index_at_byte(c, offsets[line] as int);
        let e = if line + 1 < offsets.len() { index_at_byte(c, offsets[line + 1] as int) } else { c.len() as int };
        let k = utf16_walk(c, s, e, 0, character);
        if k >= c.len() { None } else { word_around(c, k) }
    }
}

/// Byte offsets grow strictly with the character index.
pub proof fn lemma_bytes_increasing(c: Seq<char>, a: int, b: int)
    requires
        0 <= a < b <= c.len(),
    ensures
        bytes(c, a) < bytes(c, b),
{
    lemma_utf8_len_sub(c, a, b);
    crate::text::lemma_utf8_len_ge(c.subrange(a, b));
}

/// The character index at a byte offset that falls between characters.
pub(crate) fn index_of_byte(c: &[char], off: usize) -> (r: usize)
    requires
        char_boundary(c@, off as int),
        utf8_len(c@) < usize::MAX,
    ensures
        r <= c@.len(),
        bytes(c@, r as int) == off,
        r == index_at_byte(c@, off as int),
{
    let ghost kw = index_at_byte(c@, off as int);
    let mut i: usize = 0;
    let mut n: usize = 0;
    assert(c@.take(0) =~= Seq::<char>::empty());
    while n < off
        invariant
            0 <= kw <= c@.len(),
            bytes(c@, kw) == off,
            i <= kw,
            n == bytes(c@, i as int),
            n <= off,
            utf8_len(c@) < usize::MAX,
        decreases kw - i,
    {
        proof {
            if i == kw {
                assert(false);
            }
            assert(c@.take(i + 1) =~= c@.take(i as int).push(c@[i as int]));
            lemma_utf8_len_push(c@.take(i as int), c@[i as int]);
            if i + 1 < kw {
                lemma_bytes_increasing(c@, i + 1, kw);
            }
        }
        n = n + char_len_utf8(c[i]);
        i = i + 1;
    }
    proof {
        if i < kw {
            lemma_bytes_increasing(c@, i as int, kw);
        }
    }
    i
}

/// The word at a line and UTF-16 column, with the lines' starts given as
/// byte offsets: the line is walked to the column, and the word is the run
/// of name characters around that place (across lines too).
pub fn extract_word_at_position(text: &str, line: u32, character: u32, line_offsets: &[usize]) -> (r: Option<String>)
    requires
        line_table_ok(text@, line_offsets@, line as int),
        utf8_len(text@) < usize::MAX,
    ensures
        match word_at_line_offsets(text@, line_offsets@, line as int, character as int) {
            Some(w) => r is Some && r.unwrap()@ == w,
            None => r is None,
        },
{
    let l = line as usize;
    if l >= line_offsets.len() {
        return None;
    }
    let c = str_to_chars(text);
    let s = index_of_byte(c.as_slice(), line_offsets[l]);
    let e = if l + 1 < line_offsets.len() {
        index_of_byte(c.as_slice(), line_offsets[l + 1])
    } else {
        c.len()
    };
    proof {
        if e < s {
            lemma_bytes_increasing(c@, e as int, s as int);
        }
    }
    let mut k = s;
    let mut count: u64 = 0;
    while k < e && count < character as u64
        invariant
            s <= k <= e <= c@.len(),
            count <= u32::MAX + 2,
            utf16_walk(c@, s as int, e as int, 0, character as int) == utf16_walk(c@, k as int, e as int, count as int, character as int),
        decreases e - k,
    {
        let w: u64 = if c[k] as u32 >= 0x10000 { 2 } else { 1 };
        count = count + w;
        k = k + 1;
    }
    if k >= c.len() {
        return None;
    }
    match word_around_exec(c.as_slice(), k) {
        Some((a, b)) => {
            let w = sub_chars(c.as_slice(), a, b);
            Some(chars_to_string(w.as_slice()))
        },
        None => None,
    }
}

/// The hover text of a parameter: its name, its type, and how shaders
/// reach it.
pub open spec fn parameter_hover_text(p: ParameterView) -> Seq<char> {
    "**Parameter `"@ + p.name + "`**\n\nType: `"@ + p.param_type
        + "`\n\nDeclared in the `material` block and accessed from the shader as `materialParams."@ + p.name + "`."@
}

/// The hover of a word: for a parameter of the material that the word names
/// (directly or as `materialParams_<name>`), its declaration; else the
/// documentation of the word, if any.
pub open spec fn hover_spec(material: Option<MaterialView>, word: Seq<char>) -> Option<Seq<char>> {
    match material {
        Some(m) => match param_named(m.parameters, word) {
            Some(p) => Some(parameter_hover_text(p)),
            None => hover_doc(word),
        },
        None => hover_doc(word),
    }
}

/// The hover text of a word, given the document's material when it parsed.
pub fn hover_text(material: Option<&Material>, word: &str) -> (r: Option<String>)
    ensures
        match hover_spec(
            match material {
                Some(m) => Some(m@),
                None => None,
            },
            word@,
        ) {
            Some(t) => r is Some && r.unwrap()@ == t,
            None => r is None,
        },
{
    match material {
        Some(m) => {
            match param_named_exec(&m.parameters, word) {
                Some(i) => {
                    let p = &m.parameters[i];
                    let mut t = String::new();
                    string_push_str(&mut t, "**Parameter `");
                    string_push_str(&mut t, p.name.as_str());
                    string_push_str(&mut t, "`**\n\nType: `");
                    string_push_str(&mut t, p.param_type.as_str());
                    string_push_str(&mut t, "`\n\nDeclared in the `material` block and accessed from the shader as `materialParams.");
                    string_push_str(&mut t, p.name.as_str());
                    string_push_str(&mut t, "`.");
                    assert(m@.parameters == params_view(m.parameters@));
                    return Some(t);
                },
                None => {
                    assert(m@.parameters == params_view(m.parameters@));
                },
            }
        },
        None => {},
    }
    let engine = HoverEngine::new();
    engine.get_hover(word)
}

/// The number of places where `materialParams.<name>` occurs in the shader
/// blocks with no name character after it, each block's places found
/// without overlapping.
pub open spec fn reference_count(shaders: Seq<ShaderBlockView>, name: Seq<char>) -> nat
    decreases shaders.len(),
{
    if shaders.len() == 0 {
        0
    } else {
        let c = shaders.last().code;
        reference_count(shaders.drop_last(), name) + word_matches(c, "materialParams."@ + name, 0, c.len() as int).len()
    }
}

/// The characters of all shader blocks' code together.
pub open spec fn total_code_len(shaders: Seq<ShaderBlockView>) -> nat
    decreases shaders.len(),
{
    if shaders.len() == 0 {
        0
    } else {
        total_code_len(shaders.drop_last()) + shaders.last().code.len()
    }
}

/// The reference lenses of parameters: the range and reference count of
/// each parameter that is referenced, in order.
pub open spec fn lenses_spec(params: Seq<ParameterView>, shaders: Seq<ShaderBlockView>) -> Seq<(TextRange, nat)>
    decreases params.len(),
{
    if params.len() == 0 {
        seq![]
    } else {
        let n = reference_count(shaders, params.last().name);
        lenses_spec(params.drop_last(), shaders) + if n > 0 { seq![(params.last().range, n)] } else { seq![] }
    }
}

/// A parameter with how many times shader code refers to it.
#[derive(Debug, Clone, Copy, PartialEq, Eq, Structural)]
pub struct ReferenceLens {
    pub range: TextRange,
    pub count: usize,
}

/// A non-empty pattern occurs no more often than there are characters.
proof fn lemma_matches_len(c: Seq<char>, p: Seq<char>, i: int)
    requires
        p.len() > 0,
        0 <= i,
    ensures
        matches_from(c, p, i).len() + i <= c.len() || matches_from(c, p, i).len() == 0,
    decreases c.len() + 1 - i,
{
    if !(i + p.len() > c.len()) {
        if occurs_at(c, p, i) {
            lemma_matches_len(c, p, i + p.len());
        } else {
            lemma_matches_len(c, p, i + 1);
        }
    }
}

proof fn lemma_reference_count_bound(shaders: Seq<ShaderBlockView>, name: Seq<char>)
    ensures
        reference_count(shaders, name) <= total_code_len(shaders),
    decreases shaders.len(),
{
    if shaders.len() > 0 {
        lemma_reference_count_bound(shaders.drop_last(), name);
        reveal_strlit("materialParams.");
        let c = shaders.last().code;
        let p = "materialParams."@ + name;
        assert(p.len() > 0);
        assert(c.subrange(0, c.len() as int) =~= c);
        lemma_matches_len(c, p, 0);
        lemma_keep_word_ends_len(c, matches_from(c, p, 0).map_values(|m: int| m + 0), p.len() as int);
    }
}

/// The reference lenses of the parameters of a file: each parameter that
/// shader code refers to as `materialParams.<name>`, with the count.
pub fn parameter_reference_lenses(matfile: &MatFile) -> (r: Vec<ReferenceLens>)
    requires
        total_code_len(shaders_view(matfile.shaders@)) <= usize::MAX,
    ensures
        r@.map_values(|l: ReferenceLens| (l.range, l.count as nat)) == lenses_spec(params_view(matfile.material.parameters@), shaders_view(matfile.shaders@)),
{
    let ghost pv = params_view(matfile.material.parameters@);
    let ghost sv = shaders_view(matfile.shaders@);
    let mut out: Vec<ReferenceLens> = Vec::new();
    let mut i: usize = 0;
    assert(pv.take(0) =~= Seq::<ParameterView>::empty());
    while i < matfile.material.parameters.len()
        invariant
            i <= matfile.material.parameters@.len(),
            pv == params_view(matfile.material.parameters@),
            sv == shaders_view(matfile.shaders@),
            total_code_len(sv) <= usize::MAX,
            out@.map_values(|l: ReferenceLens| (l.range, l.count as nat)) == lenses_spec(pv.take(i as int), sv),
        decreases matfile.material.parameters.len() - i,
    {
        let p = &matfile.material.parameters[i];
        let pat = concat_chars("materialParams.", p.name.as_str());
        proof {
            reveal_strlit("materialParams.");
            lemma_reference_count_bound(sv, p.name@);
        }
        let mut n: usize = 0;
        let mut j: usize = 0;
        assert(sv.take(0) =~= Seq::<ShaderBlockView>::empty());
        while j < matfile.shaders.len()
            invariant
                j <= matfile.shaders@.len(),
                sv == shaders_view(matfile.shaders@),
                pat@ == "materialParams."@ + p.name@,
                pat@.len() > 0,
                n == reference_count(sv.take(j as int), p.name@),
                reference_count(sv, p.name@) <= usize::MAX,
            decreases matfile.shaders.len() - j,
        {
            let code = str_to_chars(matfile.shaders[j].code.as_str());
            let cl = code.len();
            let ms = find_word_matches(code.as_slice(), pat.as_slice(), 0, cl);
            assert(sv.take(j + 1).drop_last() =~= sv.take(j as int));
            assert(ms@.map_values(|x: usize| x as int).len() == ms@.len());
            proof {
                lemma_reference_count_prefix(sv, p.name@, j + 1);
            }
            n = n + ms.len();
            j = j + 1;
        }
        assert(sv.take(j as int) =~= sv);
        assert(pv.take(i + 1).drop_last() =~= pv.take(i as int));
        let ghost prev = out@;
        if n > 0 {
            out.push(ReferenceLens { range: p.range, count: n });
            assert(out@.map_values(|l: ReferenceLens| (l.range, l.count as nat)) =~= prev.map_values(|l: ReferenceLens| (l.range, l.count as nat)).push((p.range, n as nat)));
        }
        i = i + 1;
    }
    assert(pv.take(i as int) =~= pv);
    out
}

/// Keeping the places that end a word keeps no more than there are.
proof fn lemma_keep_word_ends_len(c: Seq<char>, ms: Seq<int>, plen: int)
    ensures
        keep_word_ends(c, ms, plen).len() <= ms.len(),
    decreases ms.len(),
{
    if ms.len() > 0 {
        lemma_keep_word_ends_len(c, ms.drop_last(), plen);
    }
}

/// A prefix of the blocks has no more references than all of them.
proof fn lemma_reference_count_prefix(shaders: Seq<ShaderBlockView>, name: Seq<char>, j: int)
    requires
        0 <= j <= shaders.len(),
    ensures
        reference_count(shaders.take(j), name) <= reference_count(shaders, name),
    decreases shaders.len(),
{
    if j < shaders.len() {
        assert(shaders.drop_last().take(j) =~= shaders.take(j));
        lemma_reference_count_prefix(shaders.drop_last(), name, j);
    } else {
        assert(shaders.take(j) =~= shaders);
    }
}

/// The title of a reference lens: the count and `reference`, plural
/// unless the count is one.
pub fn reference_title(n: usize) -> (r: String)
    ensures
        r@ == crate::server::decimal_digits(n as nat) + " reference"@ + if n == 1 { ""@ } else { "s"@ },
{
    let mut out: Vec<char> = Vec::new();
    crate::server::push_decimal_digits(&mut out, n as u64);
    let mut s = chars_to_string(out.as_slice());
    string_push_str(&mut s, " reference");
    if n != 1 {
        string_push_str(&mut s, "s");
    } else {
        proof {
            reveal_strlit("");
        }
        assert(s@ =~= s@ + ""@);
    }
    s
}

/// The range a rename at a position would change: the definition of the
/// parameter that holds the position; else the word at the position when it
/// names a parameter (its lines and byte columns counted from the text's
/// start); else none.
pub open spec fn prepare_rename_spec(params: Seq<ParameterView>, text: Seq<char>, line: u32, character: u32) -> Option<TextRange> {
    match param_at(params, line, character) {
        Some(p) => Some(p.range),
        None => {
            let k = position_index(text, line as int, character as int);
            match word_around(text, k) {
                Some(w) => if param_named(params, w) is Some {
                    let a = line_col_of(text, crate::editor::word_start(text, k), 0);
                    let b = line_col_of(text, crate::editor::word_end(text, k), 0);
                    Some(TextRange {
                        start: TextPosition { line: a.0 as u32, character: a.1 as u32 },
                        end: TextPosition { line: b.0 as u32, character: b.1 as u32 },
                    })
                } else {
                    None
                },
                None => None,
            }
        },
    }
}

/// The range a rename at a position would change, if any.
pub fn prepare_rename(doc: &Document, material: &Material, line: u32, character: u32) -> (r: Option<TextRange>)
    requires
        doc.wf(),
        utf8_len(doc.text@) < u32::MAX,
    ensures
        r == prepare_rename_spec(params_view(material.parameters@), doc.text@, line, character),
{
    match param_at_exec(&material.parameters, line, character) {
        Some(i) => return Some(material.parameters[i].range),
        None => {},
    }
    let c = str_to_chars(doc.text.as_str());
    let k = doc.position_index_of(c.as_slice(), line, character);
    match word_around_exec(c.as_slice(), k) {
        Some((a, b)) => {
            let w = sub_chars(c.as_slice(), a, b);
            let ws = chars_to_string(w.as_slice());
            match param_named_exec(&material.parameters, ws.as_str()) {
                Some(_) => {
                    proof {
                        crate::text::lemma_utf8_len_ge(c@);
                        lemma_line_begin(c@.take(a as int));
                        lemma_line_begin(c@.take(b as int));
                        lemma_newlines_nonneg(c@.take(a as int));
                        lemma_newlines_nonneg(c@.take(b as int));
                    }
                    let s = offset_to_line_col(c.as_slice(), a, 0);
                    let e = offset_to_line_col(c.as_slice(), b, 0);
                    Some(TextRange { start: s, end: e })
                },
                None => None,
            }
        },
        None => None,
    }
}

/// Line feeds are never counted below zero.
pub proof fn lemma_newlines_nonneg(c: Seq<char>)
    ensures
        newlines(c) >= 0,
    decreases c.len(),
{
    if c.len() > 0 {
        lemma_newlines_nonneg(c.drop_last());
    }
}

proof fn lemma_shader_rename_texts(text: Seq<char>, shaders: Seq<ShaderBlockView>, old: Seq<char>, new: Seq<char>)
    ensures
        forall|i: int| 0 <= i < shader_rename_edits(text, shaders, old, new).len() ==> {
            let t = (#[trigger] shader_rename_edits(text, shaders, old, new)[i]).1;
            t == "materialParams_"@ + new || t == "materialParams."@ + new
        },
    decreases shaders.len(),
{
    if shaders.len() > 0 {
        lemma_shader_rename_texts(text, shaders.drop_last(), old, new);
        let r = shader_rename_edits(text, shaders.drop_last(), old, new);
        let sh = shaders.last();
        let (lo, hi) = block_span(text, sh.range);
        let u = "materialParams_"@ + old;
        let d = "materialParams."@ + old;
        let x = match_edits(text, word_matches(text, u, lo, hi), 0, 0, utf8_len(u) as int, "materialParams_"@ + new);
        let y = match_edits(text, word_matches(text, d, lo, hi), 0, 0, utf8_len(d) as int, "materialParams."@ + new);
        let all = shader_rename_edits(text, shaders, old, new);
        assert(all == r + x + y);
        assert forall|i: int| 0 <= i < all.len() implies {
            let t = (#[trigger] all[i]).1;
            t == "materialParams_"@ + new || t == "materialParams."@ + new
        } by {
            if i < r.len() {
                assert(all[i] == r[i]);
            } else if i < r.len() + x.len() {
                assert(all[i] == x[i - r.len()]);
            } else {
                assert(all[i] == y[i - r.len() - x.len()]);
            }
        }
    }
}

/// A rename writes only the new name: bare in the definition fields, and
/// after `materialParams_` or `materialParams.` in shader code.
pub proof fn lemma_rename_texts(text: Seq<char>, shaders: Seq<ShaderBlockView>, old: Seq<char>, new: Seq<char>)
    ensures
        forall|i: int| 0 <= i < rename_edits_spec(text, shaders, old, new).len() ==> {
            let t = (#[trigger] rename_edits_spec(text, shaders, old, new)[i]).1;
            t == new || t == "materialParams_"@ + new || t == "materialParams."@ + new
        },
{
    lemma_shader_rename_texts(text, shaders, old, new);
    let a = match_edits(text, word_matches(text, "name : "@ + old, 0, text.len() as int), 7, 0, utf8_len(old) as int, new);
    let b = match_edits(text, word_matches(text, "name:"@ + old, 0, text.len() as int), 5, 0, utf8_len(old) as int, new);
    let c = shader_rename_edits(text, shaders, old, new);
    let all = rename_edits_spec(text, shaders, old, new);
    assert(all == a + b + c);
    assert forall|i: int| 0 <= i < all.len() implies {
        let t = (#[trigger] all[i]).1;
        t == new || t == "materialParams_"@ + new || t == "materialParams."@ + new
    } by {
        if i < a.len() {
        } else if i < a.len() + b.len() {
            assert(all[i] == b[i - a.len()]);
        } else {
            assert(all[i] == c[i - a.len() - b.len()]);
        }
    }
}

/// Definitions are the written references and shader uses the read ones.
pub proof fn lemma_reference_kinds(text: Seq<char>, params: Seq<ParameterView>, shaders: Seq<ShaderBlockView>, symbol: Seq<char>)
    ensures
        forall|i: int| 0 <= i < definition_refs(params, symbol).len() ==> (#[trigger] definition_refs(params, symbol)[i]).is_write,
        forall|i: int| 0 <= i < shader_refs(text, shaders, symbol).len() ==> !(#[trigger] shader_refs(text, shaders, symbol)[i]).is_write,
    decreases params.len() + shaders.len(),
{
    if params.len() > 0 {
        lemma_reference_kinds(text, params.drop_last(), shaders, symbol);
        let r = definition_refs(params.drop_last(), symbol);
        let d = definition_refs(params, symbol);
        assert forall|i: int| 0 <= i < d.len() implies (#[trigger] d[i]).is_write by {
            if i < r.len() {
                assert(d[i] == r[i]);
            }
        }
    }
    if shaders.len() > 0 {
        lemma_reference_kinds(text, params, shaders.drop_last(), symbol);
        let r = shader_refs(text, shaders.drop_last(), symbol);
        let s = shader_refs(text, shaders, symbol);
        let sh = shaders.last();
        let (lo, hi) = block_span(text, sh.range);
        let n = utf8_len(symbol) as int;
        let u1 = text_refs(text, word_matches(text, "materialParams."@ + symbol, lo, hi), 15, n);
        let u2 = text_refs(text, word_matches(text, "materialParams_"@ + symbol, lo, hi), 15, n);
        assert(s == r + u1 + u2);
        assert forall|i: int| 0 <= i < s.len() implies !(#[trigger] s[i]).is_write by {
            if i < r.len() {
                assert(s[i] == r[i]);
            } else if i < r.len() + u1.len() {
                assert(s[i] == u1[i - r.len()]);
            } else {
                assert(s[i] == u2[i - r.len() - u1.len()]);
            }
        }
    }
}

proof fn lemma_index_from_bounds(s: Seq<char>, line: int, col: int, k: int)
    ensures
        0 <= index_from(s, line, col, k) <= s.len(),
    decreases s.len() - k,
{
    if 0 <= k < s.len() && !pos_le((line, col), line_col(s, k)) {
        lemma_index_from_bounds(s, line, col, k + 1);
    }
}

proof fn lemma_brace_from_bounds(s: Seq<char>, k: int)
    requires
        0 <= k,
    ensures
        k <= brace_from(s, k) <= s.len() || brace_from(s, k) == s.len(),
    decreases s.len() - k,
{
    if k < s.len() && s[k] != '{' {
        lemma_brace_from_bounds(s, k + 1);
    }
}

/// The code span of a block lies within the text.
proof fn lemma_block_span_bounds(s: Seq<char>, r: TextRange)
    ensures
        0 <= block_span(s, r).0 <= block_span(s, r).1 <= s.len(),
{
    let a = index_from(s, r.start.line as int, r.start.character as int, 0);
    lemma_index_from_bounds(s, r.start.line as int, r.start.character as int, 0);
    lemma_brace_from_bounds(s, a);
    lemma_index_from_bounds(s, r.end.line as int, r.end.character as int, 0);
}

/// A left-to-right search from `i` finds every occurrence at `k >= i` that
/// no occurrence starting between `i` and `k` overlaps.
proof fn lemma_matches_from_finds(c: Seq<char>, p: Seq<char>, i: int, k: int)
    requires
        p.len() > 0,
        0 <= i <= k,
        occurs_at(c, p, k),
        forall|q: int| i <= q < k && k < q + p.len() ==> !occurs_at(c, p, q),
    ensures
        matches_from(c, p, i).contains(k),
    decreases k - i,
{
    let ms = matches_from(c, p, i);
    if i == k {
        assert(ms[0] == k);
    } else if occurs_at(c, p, i) {
        lemma_matches_from_finds(c, p, i + p.len(), k);
        let rest = matches_from(c, p, i + p.len());
        assert(ms == seq![i] + rest);
        let w = choose|w: int| 0 <= w < rest.len() && rest[w] == k;
        assert(ms[w + 1] == k);
    } else {
        lemma_matches_from_finds(c, p, i + 1, k);
    }
}

/// Keeping the matches that end a word keeps each such match.
proof fn lemma_keep_word_ends_keeps(c: Seq<char>, ms: Seq<int>, plen: int, m: int)
    requires
        ms.contains(m),
        ends_word(c, m + plen),
    ensures
        keep_word_ends(c, ms, plen).contains(m),
    decreases ms.len(),
{
    let r = keep_word_ends(c, ms.drop_last(), plen);
    let tail: Seq<int> = if ends_word(c, ms.last() + plen) { seq![ms.last()] } else { seq![] };
    assert(keep_word_ends(c, ms, plen) == r + tail);
    if ms.last() == m {
        assert((r + tail)[r.len() as int] == m);
    } else {
        let w = choose|w: int| 0 <= w < ms.len() && ms[w] == m;
        assert(ms.drop_last()[w] == m);
        lemma_keep_word_ends_keeps(c, ms.drop_last(), plen, m);
        let v = choose|v: int| 0 <= v < r.len() && r[v] == m;
        assert((r + tail)[v] == m);
    }
}

/// A whole-word search within `c[lo..hi]` finds every occurrence that lies
/// within it, ends a word, and is overlapped by no occurrence starting
/// earlier within it.
pub proof fn lemma_word_matches_find(c: Seq<char>, p: Seq<char>, lo: int, hi: int, k: int)
    requires
        p.len() > 0,
        0 <= lo <= k,
        k + p.len() <= hi <= c.len(),
        occurs_at(c, p, k),
        ends_word(c, k + p.len()),
        forall|q: int| lo <= q < k && k < q + p.len() ==> !occurs_at(c, p, q),
    ensures
        word_matches(c, p, lo, hi).contains(k),
{
    let sub = c.subrange(lo, hi);
    assert(sub.subrange(k - lo, k - lo + p.len()) =~= c.subrange(k, k + p.len()));
    assert forall|q: int| 0 <= q < k - lo && k - lo < q + p.len() implies !occurs_at(sub, p, q) by {
        if occurs_at(sub, p, q) {
            assert(sub.subrange(q, q + p.len()) =~= c.subrange(q + lo, q + lo + p.len()));
            assert(occurs_at(c, p, q + lo));
        }
    }
    lemma_matches_from_finds(sub, p, 0, k - lo);
    let ms = matches_from(sub, p, 0);
    let w = choose|w: int| 0 <= w < ms.len() && ms[w] == k - lo;
    let shifted = ms.map_values(|m: int| m + lo);
    assert(shifted[w] == k);
    lemma_keep_word_ends_keeps(c, shifted, p.len() as int, k);
}

/// How shader code names parameter `name`: `materialParams.name` when
/// `dot`, else `materialParams_name`.
pub open spec fn param_use(dot: bool, name: Seq<char>) -> Seq<char> {
    if dot { "materialParams."@ + name } else { "materialParams_"@ + name }
}

proof fn lemma_shader_rename_covers(text: Seq<char>, shaders: Seq<ShaderBlockView>, old: Seq<char>, new: Seq<char>, dot: bool, j: int, k: int)
    requires
        0 <= j < shaders.len(),
        word_matches(text, param_use(dot, old),
            block_span(text, shaders[j].range).0, block_span(text, shaders[j].range).1).contains(k),
    ensures
        shader_rename_edits(text, shaders, old, new).contains(edit_at(text, k, 0,
            utf8_len(param_use(dot, old)) as int,
            param_use(dot, new))),
    decreases shaders.len(),
{
    let u = "materialParams_"@ + old;
    let d = "materialParams."@ + old;
    let sh = shaders.last();
    let (lo, hi) = block_span(text, sh.range);
    let r = shader_rename_edits(text, shaders.drop_last(), old, new);
    let x = match_edits(text, word_matches(text, u, lo, hi), 0, 0, utf8_len(u) as int, "materialParams_"@ + new);
    let y = match_edits(text, word_matches(text, d, lo, hi), 0, 0, utf8_len(d) as int, "materialParams."@ + new);
    let all = shader_rename_edits(text, shaders, old, new);
    assert(all == r + x + y);
    let pat = if dot { d } else { u };
    let e = edit_at(text, k, 0, utf8_len(pat) as int, param_use(dot, new));
    if j == shaders.len() - 1 {
        let ms = word_matches(text, pat, lo, hi);
        let w = choose|w: int| 0 <= w < ms.len() && ms[w] == k;
        if dot {
            assert(y[w] == e);
            assert(all[r.len() + x.len() + w] == e);
        } else {
            assert(x[w] == e);
            assert(all[r.len() + w] == e);
        }
    } else {
        assert(shaders.drop_last()[j] == shaders[j]);
        lemma_shader_rename_covers(text, shaders.drop_last(), old, new, dot, j, k);
        let v = choose|v: int| 0 <= v < r.len() && r[v] == e;
        assert(all[v] == e);
    }
}

/// A rename renames every use of the parameter in shader code: each
/// occurrence of `materialParams_old` (or `materialParams.old`, when `dot`)
/// within the code of a shader block that ends a word, and that no earlier
/// occurrence within the code overlaps, gets an edit at its own place that
/// writes `materialParams_new` (or `materialParams.new`).
pub proof fn lemma_rename_covers_shader_uses(text: Seq<char>, shaders: Seq<ShaderBlockView>, old: Seq<char>, new: Seq<char>, dot: bool, j: int, k: int)
    requires
        0 <= j < shaders.len(),
        ({
            let pat = param_use(dot, old);
            let (lo, hi) = block_span(text, shaders[j].range);
            &&& lo <= k
            &&& k + pat.len() <= hi
            &&& occurs_at(text, pat, k)
            &&& ends_word(text, k + pat.len())
            &&& forall|q: int| lo <= q < k && k < q + pat.len() ==> !occurs_at(text, pat, q)
        }),
    ensures
        rename_edits_spec(text, shaders, old, new).contains(edit_at(text, k, 0,
            utf8_len(param_use(dot, old)) as int,
            param_use(dot, new))),
{
    let pat = param_use(dot, old);
    let (lo, hi) = block_span(text, shaders[j].range);
    reveal_strlit("materialParams.");
    reveal_strlit("materialParams_");
    assert(pat.len() > 0);
    lemma_block_span_bounds(text, shaders[j].range);
    assert(forall|q: int| lo <= q < k && k < q + pat.len() ==> !occurs_at(text, pat, q));
    lemma_word_matches_find(text, pat, lo, hi, k);
    lemma_shader_rename_covers(text, shaders, old, new, dot, j, k);
    let e = edit_at(text, k, 0, utf8_len(pat) as int, param_use(dot, new));
    let a = match_edits(text, word_matches(text, "name : "@ + old, 0, text.len() as int), 7, 0, utf8_len(old) as int, new);
    let b = match_edits(text, word_matches(text, "name:"@ + old, 0, text.len() as int), 5, 0, utf8_len(old) as int, new);
    let c = shader_rename_edits(text, shaders, old, new);
    let all = rename_edits_spec(text, shaders, old, new);
    assert(all == a + b + c);
    let v = choose|v: int| 0 <= v < c.len() && c[v] == e;
    assert(all[a.len() + b.len() + v] == e);
}

/// How a parameter's definition names it: `name:old` when `compact`, else
/// `name : old`.
pub open spec fn definition_pattern(compact: bool, name: Seq<char>) -> Seq<char> {
    if compact { "name:"@ + name } else { "name : "@ + name }
}

/// A rename renames the parameter's definition: each occurrence of
/// `name : old` (or `name:old`, when `compact`) in the text that ends a
/// word, and that no earlier occurrence overlaps, gets an edit that writes
/// `new` over the `old` that follows `name : ` (or `name:`).
pub proof fn lemma_rename_covers_definitions(text: Seq<char>, shaders: Seq<ShaderBlockView>, old: Seq<char>, new: Seq<char>, compact: bool, k: int)
    requires
        occurs_at(text, definition_pattern(compact, old), k),
        ends_word(text, k + definition_pattern(compact, old).len()),
        forall|q: int| 0 <= q < k && k < q + definition_pattern(compact, old).len()
            ==> !occurs_at(text, definition_pattern(compact, old), q),
    ensures
        rename_edits_spec(text, shaders, old, new).contains(edit_at(text, k + if compact { 5int } else { 7int }, 0, utf8_len(old) as int, new)),
{
    reveal_strlit("name:");
    reveal_strlit("name : ");
    let pat = definition_pattern(compact, old);
    assert(pat.len() > 0);
    lemma_word_matches_find(text, pat, 0, text.len() as int, k);
    let p1 = "name : "@ + old;
    let p2 = "name:"@ + old;
    let a = match_edits(text, word_matches(text, p1, 0, text.len() as int), 7, 0, utf8_len(old) as int, new);
    let b = match_edits(text, word_matches(text, p2, 0, text.len() as int), 5, 0, utf8_len(old) as int, new);
    let c = shader_rename_edits(text, shaders, old, new);
    let all = rename_edits_spec(text, shaders, old, new);
    assert(all == a + b + c);
    let e = edit_at(text, k + if compact { 5int } else { 7int }, 0, utf8_len(old) as int, new);
    let ms = word_matches(text, pat, 0, text.len() as int);
    let w = choose|w: int| 0 <= w < ms.len() && ms[w] == k;
    if compact {
        assert(b[w] == e);
        assert(all[a.len() + w] == e);
    } else {
        assert(a[w] == e);
        assert(all[w] == e);
    }
}

proof fn lemma_shader_refs_cover(text: Seq<char>, shaders: Seq<ShaderBlockView>, symbol: Seq<char>, dot: bool, j: int, k: int)
    requires
        0 <= j < shaders.len(),
        word_matches(text, param_use(dot, symbol), block_span(text, shaders[j].range).0, block_span(text, shaders[j].range).1).contains(k),
    ensures
        shader_refs(text, shaders, symbol).contains(text_ref(text, k + 15, utf8_len(symbol) as int)),
    decreases shaders.len(),
{
    let sh = shaders.last();
    let (lo, hi) = block_span(text, sh.range);
    let n = utf8_len(symbol) as int;
    let r = shader_refs(text, shaders.drop_last(), symbol);
    let x = text_refs(text, word_matches(text, "materialParams."@ + symbol, lo, hi), 15, n);
    let y = text_refs(text, word_matches(text, "materialParams_"@ + symbol, lo, hi), 15, n);
    let all = shader_refs(text, shaders, symbol);
    assert(all == r + x + y);
    let e = text_ref(text, k + 15, n);
    if j == shaders.len() - 1 {
        let ms = word_matches(text, param_use(dot, symbol), lo, hi);
        let w = choose|w: int| 0 <= w < ms.len() && ms[w] == k;
        if dot {
            assert(x[w] == e);
            assert(all[r.len() + w] == e);
        } else {
            assert(y[w] == e);
            assert(all[r.len() + x.len() + w] == e);
        }
    } else {
        assert(shaders.drop_last()[j] == shaders[j]);
        lemma_shader_refs_cover(text, shaders.drop_last(), symbol, dot, j, k);
        let v = choose|v: int| 0 <= v < r.len() && r[v] == e;
        assert(all[v] == e);
    }
}

proof fn lemma_definition_refs_cover(params: Seq<ParameterView>, symbol: Seq<char>, i: int)
    requires
        0 <= i < params.len(),
        params[i].name == symbol,
    ensures
        definition_refs(params, symbol).contains(Reference { range: params[i].range, is_write: true }),
    decreases params.len(),
{
    let r = definition_refs(params.drop_last(), symbol);
    let all = definition_refs(params, symbol);
    let e = Reference { range: params[i].range, is_write: true };
    if i == params.len() - 1 {
        assert(all[r.len() as int] == e);
    } else {
        assert(params.drop_last()[i] == params[i]);
        lemma_definition_refs_cover(params.drop_last(), symbol, i);
        let v = choose|v: int| 0 <= v < r.len() && r[v] == e;
        assert(all[v] == e);
    }
}

/// The references to a symbol hold every parameter of that name, as a
/// write at the parameter's range.
pub proof fn lemma_references_hold_definitions(text: Seq<char>, m: MatFileView, symbol: Seq<char>, i: int)
    requires
        0 <= i < m.material.parameters.len(),
        m.material.parameters[i].name == symbol,
    ensures
        all_refs(text, m, symbol).contains(Reference { range: m.material.parameters[i].range, is_write: true }),
{
    lemma_definition_refs_cover(m.material.parameters, symbol, i);
    let e = Reference { range: m.material.parameters[i].range, is_write: true };
    let d = definition_refs(m.material.parameters, symbol);
    let v = choose|v: int| 0 <= v < d.len() && d[v] == e;
    assert(all_refs(text, m, symbol)[v] == e);
}

/// The references to a symbol hold every use of it in shader code: each
/// occurrence of `materialParams.symbol` (or `materialParams_symbol`) within
/// the code of a shader block that ends a word, and that no earlier
/// occurrence within the code overlaps, is a read covering the symbol after
/// the prefix.
pub proof fn lemma_references_hold_shader_uses(text: Seq<char>, m: MatFileView, symbol: Seq<char>, dot: bool, j: int, k: int)
    requires
        0 <= j < m.shaders.len(),
        ({
            let pat = param_use(dot, symbol);
            let (lo, hi) = block_span(text, m.shaders[j].range);
            &&& lo <= k
            &&& k + pat.len() <= hi
            &&& occurs_at(text, pat, k)
            &&& ends_word(text, k + pat.len())
            &&& forall|q: int| lo <= q < k && k < q + pat.len() ==> !occurs_at(text, pat, q)
        }),
    ensures
        all_refs(text, m, symbol).contains(text_ref(text, k + 15, utf8_len(symbol) as int)),
{
    let pat = param_use(dot, symbol);
    let (lo, hi) = block_span(text, m.shaders[j].range);
    reveal_strlit("materialParams.");
    reveal_strlit("materialParams_");
    assert(pat.len() > 0);
    lemma_block_span_bounds(text, m.shaders[j].range);
    assert(forall|q: int| lo <= q < k && k < q + pat.len() ==> !occurs_at(text, pat, q));
    lemma_word_matches_find(text, pat, lo, hi, k);
    lemma_shader_refs_cover(text, m.shaders, symbol, dot, j, k);
    let e = text_ref(text, k + 15, utf8_len(symbol) as int);
    let d = definition_refs(m.material.parameters, symbol);
    let c = shader_refs(text, m.shaders, symbol);
    let v = choose|v: int| 0 <= v < c.len() && c[v] == e;
    assert(all_refs(text, m, symbol)[d.len() + v] == e);
}

} // verus!
