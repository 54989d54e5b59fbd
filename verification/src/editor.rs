//! Editing services on the text of a document: formatting, the indent of a
//! closing brace typed on its own line, folding ranges, and the words and
//! completion contexts at a position.
use vstd::prelude::*;
use crate::completion::{completions_ok, items_view, CompletionContext, CompletionEngine, CompletionItem, ItemView};
use crate::document::{position_index, Document};
use crate::lexer::Lexer;
use crate::lexer_spec::lexes;
use crate::schema::{get_enum_values, spec_enum_values};
use crate::shader_symbols::{
    bytes, first_occurrence, first_occurrence_exec, first_stop, trimmed_len, line_at, line_end, line_exec, name_char, trim, trim_exec, lemma_first_stop, Stop, stops,
};
use crate::signature_help::{last_index_exec, last_index_of, last_non_name, last_non_name_exec};
use crate::text::{
    char_is_alphanumeric, char_len_utf8, char_utf8_len, chars_eq, chars_eq_str, chars_occur_at, chars_to_string, has_prefix, lowercase_of,
    occurs_at, str_to_chars, string_push_str, sub_chars, to_lowercase, to_owned_string, utf8_len, is_ws,
};
use crate::token::{Token, TokenType};

verus! {

/// The lines of a text from the one at `s`, as `str::lines` gives them.
pub open spec fn lines_from(c: Seq<char>, s: int) -> Seq<Seq<char>>
    decreases c.len() + 1 - s,
{
    if s < 0 || s >= c.len() {
        seq![]
    } else {
        proof {
            lemma_first_stop(c, s, Stop::Newline);
        }
        seq![line_at(c, s)] + lines_from(c, line_end(c, s) + 1)
    }
}

pub open spec fn text_lines(c: Seq<char>) -> Seq<Seq<char>> {
    lines_from(c, 0)
}

/// The lines of a text.
pub fn split_lines(c: &[char]) -> (r: Vec<Vec<char>>)
    ensures
        r@.map_values(|l: Vec<char>| l@) == text_lines(c@),
{
    let mut out: Vec<Vec<char>> = Vec::new();
    let mut s: usize = 0;
    assert(out@.map_values(|l: Vec<char>| l@) =~= Seq::<Seq<char>>::empty());
    while s < c.len()
        invariant
            s <= c@.len(),
            text_lines(c@) == out@.map_values(|l: Vec<char>| l@) + lines_from(c@, s as int),
        decreases c.len() - s,
    {
        let (line, e) = line_exec(c, s);
        let ghost before = out@.map_values(|l: Vec<char>| l@);
        let ghost lv = line@;
        out.push(line);
        assert(out@.map_values(|l: Vec<char>| l@) =~= before.push(lv));
        let next = if e < c.len() { e + 1 } else { c.len() };
        assert(lines_from(c@, next as int) == lines_from(c@, e + 1));
        assert(before + lines_from(c@, s as int) =~= out@.map_values(|l: Vec<char>| l@) + lines_from(c@, next as int));
        s = next;
    }
    assert(out@.map_values(|l: Vec<char>| l@) + lines_from(c@, s as int) =~= out@.map_values(|l: Vec<char>| l@));
    out
}

/// A line that opens a shader block.
pub open spec fn shader_start(t: Seq<char>) -> bool {
    has_prefix(t, "vertex "@) || has_prefix(t, "fragment "@) || has_prefix(t, "compute "@) || has_prefix(t, "tool "@)
}

/// A line that opens any block.
pub open spec fn block_start(t: Seq<char>) -> bool {
    has_prefix(t, "material "@) || shader_start(t)
}

pub open spec fn starts_with_char(t: Seq<char>, ch: char) -> bool {
    t.len() > 0 && t[0] == ch
}

pub open spec fn ends_with_char(t: Seq<char>, ch: char) -> bool {
    t.len() > 0 && t.last() == ch
}

pub open spec fn sat_dec(n: nat) -> nat {
    if n > 0 { (n - 1) as nat } else { 0 }
}

/// `n` levels of four spaces.
pub open spec fn indent(n: nat) -> Seq<char>
    decreases n,
{
    if n == 0 { seq![] } else { indent((n - 1) as nat) + "    "@ }
}

/// The state of the formatter between lines: the indent level and whether
/// a shader block's code is being passed through.
pub type FmtState = (nat, bool);

/// Whether a line is passed through as GLSL, and the pass-through flag
/// after it.
pub open spec fn glsl_after(t: Seq<char>, in_glsl: bool) -> bool {
    let in1 = in_glsl || shader_start(t);
    if t == "}"@ && in1 { false } else { in1 }
}

/// Formats one non-empty trimmed line `t` (of raw text `line`): the text
/// written for it (without its line ending) and the state after it.
pub open spec fn fmt_line(st: FmtState, line: Seq<char>, t: Seq<char>) -> (Seq<char>, FmtState) {
    let in2 = glsl_after(t, st.1);
    if in2 && !block_start(t) {
        (line, (st.0, in2))
    } else {
        let ind1 = if starts_with_char(t, '}') { sat_dec(st.0) } else { st.0 };
        let ind2 = if ends_with_char(t, '{') { ind1 + 1 } else { ind1 };
        let ind3 = if t == "}"@ { sat_dec(ind2) } else { ind2 };
        (indent(ind1) + t, (ind3, in2))
    }
}

/// The text that formatting the lines gives from state `st`.
pub open spec fn format_lines(lines: Seq<Seq<char>>, st: FmtState) -> (Seq<char>, FmtState)
    decreases lines.len(),
{
    if lines.len() == 0 {
        (seq![], st)
    } else {
        let r = format_lines(lines.drop_last(), st);
        let line = lines.last();
        let t = trim(line);
        if t.len() == 0 {
            (r.0.push('\n'), r.1)
        } else {
            let f = fmt_line(r.1, line, t);
            (r.0 + f.0 + "\n"@, f.1)
        }
    }
}

/// The formatted text: each block line indented four spaces per level,
/// shader code kept as it is, each line ended by a line feed.
pub open spec fn formatted(c: Seq<char>) -> Seq<char> {
    format_lines(text_lines(c), (0, false)).0
}

fn has_prefix_exec(t: &[char], p: &str) -> (r: bool)
    ensures
        r == has_prefix(t@, p@),
{
    let pc = str_to_chars(p);
    if pc.len() > t.len() {
        return false;
    }
    let pre = crate::text::sub_chars(t, 0, pc.len());
    assert(pre@ =~= t@.take(pc@.len() as int));
    chars_eq(pre.as_slice(), pc.as_slice())
}

fn shader_start_exec(t: &[char]) -> (r: bool)
    ensures
        r == shader_start(t@),
{
    has_prefix_exec(t, "vertex ") || has_prefix_exec(t, "fragment ") || has_prefix_exec(t, "compute ")
        || has_prefix_exec(t, "tool ")
}

fn is_lone_brace(t: &[char]) -> (r: bool)
    ensures
        r == (t@ == "}"@),
{
    proof {
        reveal_strlit("}");
    }
    let r = t.len() == 1 && t[0] == '}';
    if t.len() == 1 {
        assert(t@ == "}"@ <==> t@[0] == '}') by {
            if t@[0] == '}' {
                assert(t@ =~= "}"@);
            }
        }
    }
    r
}

fn push_chars(out: &mut Vec<char>, s: &[char])
    ensures
        final(out)@ == old(out)@ + s@,
{
    let mut i: usize = 0;
    while i < s.len()
        invariant
            i <= s@.len(),
            out@ == old(out)@ + s@.take(i as int),
        decreases s.len() - i,
    {
        out.push(s[i]);
        assert(old(out)@ + s@.take(i + 1) =~= (old(out)@ + s@.take(i as int)).push(s@[i as int]));
        i = i + 1;
    }
    assert(s@.take(i as int) =~= s@);
}

fn push_indent(out: &mut Vec<char>, n: usize)
    ensures
        final(out)@ == old(out)@ + indent(n as nat),
{
    let mut i: usize = 0;
    assert(old(out)@ + indent(0) =~= old(out)@);
    while i < n
        invariant
            i <= n,
            out@ == old(out)@ + indent(i as nat),
        decreases n - i,
    {
        let four = [' ', ' ', ' ', ' '];
        proof {
            reveal_strlit("    ");
            assert(four@ =~= "    "@);
            assert(old(out)@ + indent((i + 1) as nat) =~= (old(out)@ + indent(i as nat)) + "    "@);
        }
        push_chars(out, four.as_slice());
        i = i + 1;
    }
}

/// The state after one line, and the text for it.
fn format_one(out: &mut Vec<char>, line: &[char], st: (usize, bool)) -> (r: (usize, bool))
    requires
        st.0 < usize::MAX,
    ensures
        ({
            let t = trim(line@);
            if t.len() == 0 {
                final(out)@ == old(out)@.push('\n') && r == st
            } else {
                let f = fmt_line((st.0 as nat, st.1), line@, t);
                final(out)@ == old(out)@ + f.0 + "\n"@ && (r.0 as nat, r.1) == f.1
            }
        }),
        r.0 <= st.0 + 1,
{
    proof {
        reveal_strlit("\n");
    }
    let t = trim_exec(line);
    if t.len() == 0 {
        out.push('\n');
        return st;
    }
    let in1 = st.1 || shader_start_exec(t.as_slice());
    let lone = is_lone_brace(t.as_slice());
    let in2 = if lone && in1 { false } else { in1 };
    if in2 && !(has_prefix_exec(t.as_slice(), "material ") || shader_start_exec(t.as_slice())) {
        push_chars(out, line);
        out.push('\n');
        assert("\n"@ =~= seq!['\n']);
        return (st.0, in2);
    }
    let ind1 = if t[0] == '}' { if st.0 > 0 { st.0 - 1 } else { 0 } } else { st.0 };
    let ind2 = if t[t.len() - 1] == '{' { ind1 + 1 } else { ind1 };
    let ind3 = if lone { if ind2 > 0 { ind2 - 1 } else { 0 } } else { ind2 };
    let ghost o = out@;
    push_indent(out, ind1);
    push_chars(out, t.as_slice());
    out.push('\n');
    assert("\n"@ =~= seq!['\n']);
    assert(out@ =~= o + (indent(ind1 as nat) + t@) + "\n"@);
    (ind3, in2)
}

/// Formats a `.mat` text: block lines are indented four spaces per level
/// (a line starting with `}` one level less), shader code is kept as it is,
/// blank lines stay empty, and every line ends with a line feed.
pub fn format_mat_text(text: &str) -> (r: String)
    ensures
        r@ == formatted(text@),
{
    let c = str_to_chars(text);
    let lines = split_lines(c.as_slice());
    let ghost ls = lines@.map_values(|l: Vec<char>| l@);
    let mut out: Vec<char> = Vec::new();
    let mut st: (usize, bool) = (0, false);
    let mut i: usize = 0;
    assert(ls.take(0) =~= Seq::<Seq<char>>::empty());
    while i < lines.len()
        invariant
            i <= lines@.len(),
            ls == lines@.map_values(|l: Vec<char>| l@),
            ls == text_lines(text@),
            st.0 <= i,
            format_lines(ls.take(i as int), (0, false)) == (out@, (st.0 as nat, st.1)),
        decreases lines.len() - i,
    {
        assert(ls.take(i + 1).drop_last() =~= ls.take(i as int));
        assert(ls.take(i + 1).last() == lines@[i as int]@);
        st = format_one(&mut out, lines[i].as_slice(), st);
        i = i + 1;
    }
    assert(ls.take(i as int) =~= ls);
    chars_to_string(out.as_slice())
}

/// The indent level after the lines before a given line: one more after a
/// line ending with `{`, one less (not below zero) after one starting with `}`.
pub open spec fn indent_before(lines: Seq<Seq<char>>) -> nat
    decreases lines.len(),
{
    if lines.len() == 0 {
        0
    } else {
        let n = indent_before(lines.drop_last());
        let t = trim(lines.last());
        let n1 = if ends_with_char(t, '{') { n + 1 } else { n };
        if starts_with_char(t, '}') { sat_dec(n1) } else { n1 }
    }
}

/// The edit that re-indents a line holding only `}` when it is typed: the
/// line, its length in bytes (cut to 32 bits) and the expected text; none
/// when the character typed is not `}`, the line does not exist or holds
/// more, or it already has the expected indent.
pub open spec fn closing_brace_edit(c: Seq<char>, ch: Seq<char>, line: int) -> Option<(u32, u32, Seq<char>)> {
    let lines = text_lines(c);
    if ch != "}"@ || line < 0 || line >= lines.len() || trim(lines[line]) != "}"@ {
        None
    } else {
        let expected = indent(sat_dec(indent_before(lines.take(line)))) + "}"@;
        if lines[line] == expected {
            None
        } else {
            Some((line as u32, (crate::text::utf8_len(lines[line]) % 0x1_0000_0000) as u32, expected))
        }
    }
}


fn indent_before_exec(lines: &Vec<Vec<char>>, n: usize) -> (r: usize)
    requires
        n <= lines@.len(),
    ensures
        r == indent_before(lines@.map_values(|l: Vec<char>| l@).take(n as int)),
        r <= n,
{
    let ghost ls = lines@.map_values(|l: Vec<char>| l@);
    let mut level: usize = 0;
    let mut i: usize = 0;
    assert(ls.take(0) =~= Seq::<Seq<char>>::empty());
    while i < n
        invariant
            i <= n <= lines@.len(),
            ls == lines@.map_values(|l: Vec<char>| l@),
            level == indent_before(ls.take(i as int)),
            level <= i,
        decreases n - i,
    {
        assert(ls.take(i + 1).drop_last() =~= ls.take(i as int));
        assert(ls.take(i + 1).last() == lines@[i as int]@);
        let t = trim_exec(lines[i].as_slice());
        if t.len() > 0 && t[t.len() - 1] == '{' {
            level = level + 1;
        }
        if t.len() > 0 && t[0] == '}' {
            level = if level > 0 { level - 1 } else { 0 };
        }
        i = i + 1;
    }
    level
}

/// The edit that re-indents a line holding only `}` as it is typed: the
/// line, the byte length of its text (cut to 32 bits) and the text with the
/// expected indent; none where nothing changes.
pub fn closing_brace_indent_edit(text: &str, ch: &str, line: u32) -> (r: Option<(u32, u32, String)>)
    ensures
        match closing_brace_edit(text@, ch@, line as int) {
            Some((l, n, e)) => r is Some && r.unwrap().0 == l && r.unwrap().1 == n && r.unwrap().2@ == e,
            None => r is None,
        },
{
    proof {
        reveal_strlit("}");
    }
    let chv = str_to_chars(ch);
    if !(chv.len() == 1 && chv[0] == '}') {
        assert(ch@ != "}"@) by {
            if ch@ == "}"@ {
                assert(chv@ =~= seq!['}']);
            }
        }
        return None;
    }
    assert(ch@ =~= "}"@);
    let c = str_to_chars(text);
    let lines = split_lines(c.as_slice());
    let ghost ls = lines@.map_values(|l: Vec<char>| l@);
    let li = line as usize;
    if li >= lines.len() {
        return None;
    }
    assert(ls[li as int] == lines@[li as int]@);
    let t = trim_exec(lines[li].as_slice());
    if !is_lone_brace(t.as_slice()) {
        return None;
    }
    let level = indent_before_exec(&lines, li);
    let level = if level > 0 { level - 1 } else { 0 };
    let mut expected: Vec<char> = Vec::new();
    push_indent(&mut expected, level);
    expected.push('}');
    assert(expected@ =~= indent(level as nat) + "}"@);
    if chars_eq(lines[li].as_slice(), expected.as_slice()) {
        return None;
    }
    let n = crate::semantic_tokens::byte_len_u32_chars(lines[li].as_slice());
    Some((line, n, chars_to_string(expected.as_slice())))
}

/// Whether, after the given lines, a shader block's code is being passed
/// through.
pub open spec fn glsl_before(lines: Seq<Seq<char>>) -> bool
    decreases lines.len(),
{
    if lines.len() == 0 {
        false
    } else {
        glsl_after(trim(lines.last()), glsl_before(lines.drop_last()))
    }
}

/// Lines each followed by a line feed.
pub open spec fn lines_joined(lines: Seq<Seq<char>>) -> Seq<char>
    decreases lines.len(),
{
    if lines.len() == 0 {
        seq![]
    } else {
        lines_joined(lines.drop_last()) + lines.last() + "\n"@
    }
}

/// The edit that formats the lines `start..=end` (the end cut to the last
/// line): the first and last line, the byte length of the last (cut to 32
/// bits), and the formatted lines, each ended by a line feed, formatted as
/// the whole text would be from the indent and pass-through state of the
/// lines before. None when the start is past the last line or nothing
/// changes.
pub open spec fn range_format_edit(c: Seq<char>, start: int, end: int) -> Option<(u32, u32, u32, Seq<char>)> {
    let lines = text_lines(c);
    if start >= lines.len() {
        None
    } else {
        let e = if end < lines.len() - 1 { end } else { lines.len() - 1 };
        let sub = lines.subrange(start, e + 1);
        let new_text = format_lines(sub, (indent_before(lines.take(start)), glsl_before(lines.take(start)))).0;
        if new_text == lines_joined(sub) {
            None
        } else {
            Some((start as u32, e as u32, (crate::text::utf8_len(lines[e]) % 0x1_0000_0000) as u32, new_text))
        }
    }
}

fn glsl_before_exec(lines: &Vec<Vec<char>>, n: usize) -> (r: bool)
    requires
        n <= lines@.len(),
    ensures
        r == glsl_before(lines@.map_values(|l: Vec<char>| l@).take(n as int)),
{
    let ghost ls = lines@.map_values(|l: Vec<char>| l@);
    let mut g = false;
    let mut i: usize = 0;
    assert(ls.take(0) =~= Seq::<Seq<char>>::empty());
    while i < n
        invariant
            i <= n <= lines@.len(),
            ls == lines@.map_values(|l: Vec<char>| l@),
            g == glsl_before(ls.take(i as int)),
        decreases n - i,
    {
        assert(ls.take(i + 1).drop_last() =~= ls.take(i as int));
        assert(ls.take(i + 1).last() == lines@[i as int]@);
        let t = trim_exec(lines[i].as_slice());
        let in1 = g || shader_start_exec(t.as_slice());
        g = if is_lone_brace(t.as_slice()) && in1 { false } else { in1 };
        i = i + 1;
    }
    g
}

/// The edit that formats a range of lines of a text: the first and last
/// line, the byte length of the last line and the formatted text; none
/// where the range starts past the text or nothing changes.
pub fn range_formatting_edit(text: &str, start_line: u32, end_line: u32) -> (r: Option<(u32, u32, u32, String)>)
    requires
        start_line <= end_line + 1 || start_line >= text_lines(text@).len(),
    ensures
        match range_format_edit(text@, start_line as int, end_line as int) {
            Some((a, b, n, t)) => r is Some && r.unwrap().0 == a && r.unwrap().1 == b && r.unwrap().2 == n && r.unwrap().3@ == t,
            None => r is None,
        },
{
    let c = str_to_chars(text);
    let lines = split_lines(c.as_slice());
    let ghost ls = lines@.map_values(|l: Vec<char>| l@);
    let s = start_line as usize;
    if s >= lines.len() {
        return None;
    }
    let e = if (end_line as usize) < lines.len() - 1 { end_line as usize } else { lines.len() - 1 };
    let level = indent_before_exec(&lines, s);
    let g = glsl_before_exec(&lines, s);
    proof {
        assert(ls == text_lines(text@));
    }
    let ghost st0: FmtState = (level as nat, g);
    let mut st: (usize, bool) = (level, g);
    let mut out: Vec<char> = Vec::new();
    let mut orig: Vec<char> = Vec::new();
    let mut i: usize = s;
    assert(ls.subrange(s as int, s as int) =~= Seq::<Seq<char>>::empty());
    let stop = e + 1;
    while i < stop
        invariant
            stop == e + 1,
            s <= i <= e + 1,
            e < lines@.len(),
            ls == lines@.map_values(|l: Vec<char>| l@),
            level <= s,
            st.0 <= level + (i - s),
            st0 == (level as nat, g),
            format_lines(ls.subrange(s as int, i as int), st0) == (out@, (st.0 as nat, st.1)),
            lines_joined(ls.subrange(s as int, i as int)) == orig@,
        decreases stop - i,
    {
        assert(ls.subrange(s as int, i + 1).drop_last() =~= ls.subrange(s as int, i as int));
        assert(ls.subrange(s as int, i + 1).last() == lines@[i as int]@);
        st = format_one(&mut out, lines[i].as_slice(), st);
        push_chars(&mut orig, lines[i].as_slice());
        orig.push('\n');
        proof {
            reveal_strlit("\n");
            assert("\n"@ =~= seq!['\n']);
        }
        i = i + 1;
    }
    assert(ls.take(s as int) == ls.take(s as int));
    if chars_eq(out.as_slice(), orig.as_slice()) {
        return None;
    }
    assert(ls[e as int] == lines@[e as int]@);
    let n = crate::semantic_tokens::byte_len_u32_chars(lines[e].as_slice());
    Some((start_line, e as u32, n, chars_to_string(out.as_slice())))
}

/// A range of lines to fold, with the columns where it opens and closes.
#[derive(Debug, Clone, Copy, PartialEq, Eq, Structural)]
pub struct FoldRange {
    pub start_line: u32,
    pub start_character: u32,
    pub end_line: u32,
    pub end_character: u32,
}

/// The folding ranges of tokens: each closing brace or bracket closes the
/// last open one; a pair spread over more than one line gives a range. The
/// open brackets still waiting come second.
pub open spec fn fold_scan(toks: Seq<Token>) -> (Seq<FoldRange>, Seq<(u32, u32)>)
    decreases toks.len(),
{
    if toks.len() == 0 {
        (seq![], seq![])
    } else {
        let r = fold_scan(toks.drop_last());
        let t = toks.last();
        if t.token_type == TokenType::LCurly || t.token_type == TokenType::LBracket {
            (r.0, r.1.push((t.line, t.column)))
        } else if t.token_type == TokenType::RCurly || t.token_type == TokenType::RBracket {
            if r.1.len() == 0 {
                r
            } else {
                let start = r.1.last();
                let ranges = if t.line > start.0 {
                    r.0.push(FoldRange { start_line: start.0, start_character: start.1, end_line: t.line, end_character: t.column })
                } else {
                    r.0
                };
                (ranges, r.1.drop_last())
            }
        } else {
            r
        }
    }
}

/// The folding ranges of a sequence of tokens.
pub fn folding_ranges_of(tokens: &Vec<Token>) -> (r: Vec<FoldRange>)
    ensures
        r@ == fold_scan(tokens@).0,
{
    let mut ranges: Vec<FoldRange> = Vec::new();
    let mut stack: Vec<(u32, u32)> = Vec::new();
    let mut i: usize = 0;
    assert(tokens@.take(0) =~= Seq::<Token>::empty());
    while i < tokens.len()
        invariant
            i <= tokens@.len(),
            fold_scan(tokens@.take(i as int)) == (ranges@, stack@),
        decreases tokens.len() - i,
    {
        assert(tokens@.take(i + 1).drop_last() =~= tokens@.take(i as int));
        let t = &tokens[i];
        let tt = t.token_type;
        if tt == TokenType::LCurly || tt == TokenType::LBracket {
            stack.push((t.line, t.column));
        } else if tt == TokenType::RCurly || tt == TokenType::RBracket {
            match stack.pop() {
                Some(start) => {
                    if t.line > start.0 {
                        ranges.push(FoldRange { start_line: start.0, start_character: start.1, end_line: t.line, end_character: t.column });
                    }
                },
                None => {},
            }
        }
        i = i + 1;
    }
    assert(tokens@.take(i as int) =~= tokens@);
    ranges
}

/// The folding ranges of a text, from its tokens.
pub fn folding_ranges(text: &str) -> (r: Vec<FoldRange>)
    requires
        text@.len() < u32::MAX,
    ensures
        exists|toks: Seq<Token>| #![trigger lexes(text@, toks)] lexes(text@, toks) && r@ == fold_scan(toks).0,
{
    let mut lexer = Lexer::new(text);
    let tokens = lexer.tokenize();
    assert(lexes(text@, tokens@));
    folding_ranges_of(&tokens)
}

/// Where a word around index `k` starts: back over name characters.
pub open spec fn word_start(c: Seq<char>, k: int) -> int
    decreases k,
{
    if k <= 0 || k > c.len() || !name_char(c[k - 1]) { k } else { word_start(c, k - 1) }
}

/// Where a word around index `k` ends: on over name characters.
pub open spec fn word_end(c: Seq<char>, k: int) -> int
    decreases c.len() - k,
{
    if k < 0 || k >= c.len() || !name_char(c[k]) { k } else { word_end(c, k + 1) }
}

/// The word of name characters around index `k`, if it is not empty.
pub open spec fn word_around(c: Seq<char>, k: int) -> Option<Seq<char>> {
    let a = word_start(c, k);
    let b = word_end(c, k);
    if a < b { Some(c.subrange(a, b)) } else { None }
}

pub(crate) fn is_word_char(ch: char) -> (r: bool)
    ensures
        r == name_char(ch),
{
    char_is_alphanumeric(ch) || ch == '_'
}

proof fn lemma_word_bounds(c: Seq<char>, k: int)
    requires
        0 <= k <= c.len(),
    ensures
        0 <= word_start(c, k) <= k,
        k <= word_end(c, k) <= c.len(),
    decreases c.len(),
{
    lemma_word_start(c, k);
    lemma_word_end(c, k);
}

proof fn lemma_word_start(c: Seq<char>, k: int)
    requires
        0 <= k <= c.len(),
    ensures
        0 <= word_start(c, k) <= k,
    decreases k,
{
    if k > 0 && name_char(c[k - 1]) {
        lemma_word_start(c, k - 1);
    }
}

proof fn lemma_word_end(c: Seq<char>, k: int)
    requires
        0 <= k <= c.len(),
    ensures
        k <= word_end(c, k) <= c.len(),
    decreases c.len() - k,
{
    if k < c.len() && name_char(c[k]) {
        lemma_word_end(c, k + 1);
    }
}

/// The word around character index `k`, with where it starts and ends.
pub(crate) fn word_around_exec(c: &[char], k: usize) -> (r: Option<(usize, usize)>)
    requires
        k <= c@.len(),
    ensures
        match word_around(c@, k as int) {
            Some(w) => r is Some && r.unwrap().0 == word_start(c@, k as int) && r.unwrap().1 == word_end(c@, k as int),
            None => r is None,
        },
        r matches Some((a, b)) ==> a < b <= c@.len(),
{
    proof {
        lemma_word_bounds(c@, k as int);
    }
    let mut a = k;
    while a > 0 && is_word_char(c[a - 1])
        invariant
            a <= k <= c@.len(),
            word_start(c@, k as int) == word_start(c@, a as int),
        decreases a,
    {
        a = a - 1;
    }
    let mut b = k;
    while b < c.len() && is_word_char(c[b])
        invariant
            k <= b <= c@.len(),
            word_end(c@, k as int) == word_end(c@, b as int),
        decreases c.len() - b,
    {
        b = b + 1;
    }
    if a < b { Some((a, b)) } else { None }
}

/// The word at a position of a document: the name characters around the
/// position's offset.
pub fn word_at_position(doc: &Document, line: u32, character: u32) -> (r: Option<String>)
    requires
        doc.wf(),
    ensures
        match word_around(doc.text@, position_index(doc.text@, line as int, character as int)) {
            Some(w) => r is Some && r.unwrap()@ == w,
            None => r is None,
        },
{
    let c = str_to_chars(doc.text.as_str());
    let k = doc.position_index_of(c.as_slice(), line, character);
    match word_around_exec(c.as_slice(), k) {
        Some((a, b)) => {
            let w = sub_chars(c.as_slice(), a, b);
            Some(chars_to_string(w.as_slice()))
        },
        None => None,
    }
}

/// A word naming a parameter through `materialParams_`: the name after the
/// prefix, when there is one.
pub open spec fn param_name_of(word: Seq<char>) -> Option<Seq<char>> {
    if has_prefix(word, "materialParams_"@) && word.len() > 15 {
        Some(word.skip(15))
    } else {
        None
    }
}

pub fn param_name_from_word(word: &str) -> (r: Option<String>)
    ensures
        match param_name_of(word@) {
            Some(n) => r is Some && r.unwrap()@ == n,
            None => r is None,
        },
{
    proof {
        reveal_strlit("materialParams_");
    }
    let c = str_to_chars(word);
    if has_prefix_exec(c.as_slice(), "materialParams_") && c.len() > 15 {
        let n = sub_chars(c.as_slice(), 15, c.len());
        assert(n@ =~= c@.skip(15));
        Some(chars_to_string(n.as_slice()))
    } else {
        None
    }
}

/// Whether the word before index `k` can be cut out: the last character
/// before it that is not a name character is a one-byte one.
pub open spec fn prefix_readable(c: Seq<char>, k: int) -> bool {
    let text = c.take(k);
    match last_non_name(text) {
        Some(j) => char_utf8_len(text[j]) == 1,
        None => true,
    }
}

/// Whether the word before the last `:` before index `k` can be cut out:
/// the last character before that colon that is not a name character is a
/// one-byte one.
pub open spec fn colon_word_readable(c: Seq<char>, k: int) -> bool {
    let text = c.take(k);
    match last_index_of(text, ':') {
        Some(q) => match last_non_name(text.take(q)) {
            Some(j) => char_utf8_len(text[j]) == 1,
            None => true,
        },
        None => true,
    }
}

/// Whether the text before a position can be read for completion: both
/// the word before it and the word before the last colon can be cut out.
pub open spec fn completion_readable(c: Seq<char>, k: int) -> bool {
    prefix_readable(c, k) && colon_word_readable(c, k)
}

/// The name characters just before index `k`.
pub open spec fn prefix_word(c: Seq<char>, k: int) -> Seq<char> {
    let text = c.take(k);
    match last_non_name(text) {
        Some(j) => text.skip(j + 1),
        None => text,
    }
}

/// The last index where `pat` occurs wholly within `text`.
pub open spec fn last_occurrence(text: Seq<char>, pat: Seq<char>) -> Option<int> {
    if exists|i: int| occurs_at(text, pat, i) {
        Some(choose|i: int| occurs_at(text, pat, i) && forall|j: int| occurs_at(text, pat, j) ==> j <= i)
    } else {
        None
    }
}

/// Whether the last `material.` before index `k` starts a word.
pub open spec fn field_context(c: Seq<char>, k: int) -> bool {
    let text = c.take(k);
    match last_occurrence(text, "material."@) {
        Some(d) => d == 0 || !name_char(text[d - 1]),
        None => false,
    }
}

/// The completion context before index `k`: after `material.` at the start
/// of a word, the fields of the material struct (in vertex scope when the
/// line before it starts with `vertex`); else after `requires :`, `type :`
/// or a property with enumerated values and a colon, those values; else the
/// properties of the material block.
pub open spec fn completion_context_at(c: Seq<char>, k: int, shading_model: Option<Seq<char>>) -> (CompletionKindView, Option<Seq<char>>) {
    if field_context(c, k) {
        let d = last_occurrence(c.take(k), "material."@).unwrap();
        (CompletionKindView::MaterialField(vertex_scope_at(c, d)), shading_model)
    } else {
        colon_context_view(c, k)
    }
}

/// Whether the last line of `c[..d]` starts, after its leading whitespace,
/// with `vertex`.
pub open spec fn vertex_scope_at(c: Seq<char>, d: int) -> bool {
    let ls = text_lines(c.take(d));
    ls.len() > 0 && has_prefix(trim(ls.last()), "vertex"@)
}

/// The context given by the property before the last `:` before index `k`:
/// the values of `requires`, of `type`, or of a property with enumerated
/// values; else the properties of the material block.
pub open spec fn colon_context_view(c: Seq<char>, k: int) -> (CompletionKindView, Option<Seq<char>>) {
    let text = c.take(k);
    match last_index_of(text, ':') {
        Some(q) => {
            let before = text.take(q);
            let ws = match last_non_name(before) {
                Some(j) => j + 1,
                None => 0,
            };
            let word = trim(before.skip(ws));
            if word == "requires"@ {
                (CompletionKindView::RequiresValue, None)
            } else if word == "type"@ {
                (CompletionKindView::ParameterType, None)
            } else if spec_enum_values(word) is Some {
                (CompletionKindView::PropertyValue, Some(word))
            } else {
                (CompletionKindView::MaterialBlock, None)
            }
        },
        None => (CompletionKindView::MaterialBlock, None),
    }
}

/// The kind of a completion context, with the flag of a field context.
pub enum CompletionKindView {
    MaterialBlock,
    PropertyValue,
    ParameterType,
    RequiresValue,
    MaterialField(bool),
}

/// The view of a completion context: its kind and its text (the property
/// or the shading model).
pub open spec fn context_view(ctx: CompletionContext) -> (CompletionKindView, Option<Seq<char>>) {
    match ctx {
        CompletionContext::MaterialBlock => (CompletionKindView::MaterialBlock, None),
        CompletionContext::PropertyValue(p) => (CompletionKindView::PropertyValue, Some(p@)),
        CompletionContext::ParameterType => (CompletionKindView::ParameterType, None),
        CompletionContext::RequiresValue => (CompletionKindView::RequiresValue, None),
        CompletionContext::ParameterField => (CompletionKindView::MaterialBlock, None),
        CompletionContext::MaterialField { shading_model, vertex_scope } => (
            CompletionKindView::MaterialField(vertex_scope),
            match shading_model {
                Some(s) => Some(s@),
                None => None,
            },
        ),
    }
}

/// The last place where `pat` occurs wholly within `v[..end]`.
fn last_occurrence_exec(v: &[char], end: usize, pat: &[char]) -> (r: Option<usize>)
    requires
        end <= v@.len(),
    ensures
        match last_occurrence(v@.take(end as int), pat@) {
            Some(k) => r is Some && r.unwrap() == k,
            None => r is None,
        },
        r matches Some(i) ==> i + pat@.len() <= end,
{
    let ghost t = v@.take(end as int);
    if pat.len() > end {
        assert(!exists|i: int| occurs_at(t, pat@, i));
        return None;
    }
    let top = end - pat.len();
    let mut i: usize = top;
    loop
        invariant
            pat@.len() <= end <= v@.len(),
            top == end - pat@.len(),
            i <= top,
            t == v@.take(end as int),
            forall|j: int| #[trigger] occurs_at(t, pat@, j) ==> j <= i,
        decreases i,
    {
        assert(t.subrange(i as int, i + pat@.len()) =~= v@.subrange(i as int, i + pat@.len()));
        if chars_occur_at(v, pat, i) {
            assert(occurs_at(t, pat@, i as int));
            let ghost c = choose|c: int| occurs_at(t, pat@, c) && forall|j: int| occurs_at(t, pat@, j) ==> j <= c;
            assert(occurs_at(t, pat@, c) && forall|j: int| occurs_at(t, pat@, j) ==> j <= c);
            assert(c == i);
            return Some(i);
        }
        if i == 0 {
            assert(!exists|j: int| occurs_at(t, pat@, j));
            return None;
        }
        i = i - 1;
    }
}

/// Whether the last line of `c[..d]` starts, after its leading whitespace,
/// with `vertex`.
fn vertex_scope_before(c: &[char], d: usize) -> (r: bool)
    requires
        d <= c@.len(),
    ensures
        r == vertex_scope_at(c@, d as int),
{
    let before = sub_chars(c, 0, d);
    assert(before@ =~= c@.take(d as int));
    let ls = split_lines(before.as_slice());
    if ls.len() > 0 {
        let last = &ls[ls.len() - 1];
        assert(ls@.map_values(|l: Vec<char>| l@)[ls.len() - 1] == last@);
        let t = trim_exec(last.as_slice());
        let vx = str_to_chars("vertex");
        let b = chars_occur_at(t.as_slice(), vx.as_slice(), 0);
        assert(b ==> t@.take(vx@.len() as int) =~= t@.subrange(0, vx@.len() as int));
        assert(has_prefix(t@, vx@) ==> t@.subrange(0, vx@.len() as int) =~= t@.take(vx@.len() as int));
        b
    } else {
        false
    }
}

/// The context of the property before the last colon before index `k`.
fn colon_context(c: &[char], k: usize) -> (r: CompletionContext)
    requires
        k <= c@.len(),
        colon_word_readable(c@, k as int),
    ensures
        context_view(r) == colon_context_view(c@, k as int),
{
    let ghost text = c@.take(k as int);
    match last_index_exec(c, k, ':') {
        Some(q) => {
            assert(text.take(q as int) =~= c@.take(q as int));
            let ws = match last_non_name_exec(c, q) {
                Some(j) => j + 1,
                None => 0,
            };
            let part = sub_chars(c, ws, q);
            assert(part@ =~= text.take(q as int).skip(ws as int));
            let word = trim_exec(part.as_slice());
            if chars_eq_str(word.as_slice(), "requires") {
                CompletionContext::RequiresValue
            } else if chars_eq_str(word.as_slice(), "type") {
                CompletionContext::ParameterType
            } else {
                let w = chars_to_string(word.as_slice());
                if get_enum_values(w.as_str()).is_some() {
                    CompletionContext::PropertyValue(w)
                } else {
                    CompletionContext::MaterialBlock
                }
            }
        },
        None => CompletionContext::MaterialBlock,
    }
}

/// Whether the text before a position can be read for completion.
pub fn completion_readable_at(doc: &Document, line: u32, character: u32) -> (r: bool)
    requires
        doc.wf(),
    ensures
        r == completion_readable(doc.text@, position_index(doc.text@, line as int, character as int)),
{
    let c = str_to_chars(doc.text.as_str());
    let k = doc.position_index_of(c.as_slice(), line, character);
    let ok1 = match last_non_name_exec(c.as_slice(), k) {
        Some(j) => char_len_utf8(c[j]) == 1,
        None => true,
    };
    let ok2 = match last_index_exec(c.as_slice(), k, ':') {
        Some(q) => {
            assert(c@.take(k as int).take(q as int) =~= c@.take(q as int));
            match last_non_name_exec(c.as_slice(), q) {
                Some(j) => char_len_utf8(c[j]) == 1,
                None => true,
            }
        },
        None => true,
    };
    ok1 && ok2
}

/// The name characters just before a position: the text completions are
/// filtered by.
pub fn extract_completion_prefix(doc: &Document, line: u32, character: u32) -> (r: String)
    requires
        doc.wf(),
        prefix_readable(doc.text@, position_index(doc.text@, line as int, character as int)),
    ensures
        r@ == prefix_word(doc.text@, position_index(doc.text@, line as int, character as int)),
{
    let c = str_to_chars(doc.text.as_str());
    let k = doc.position_index_of(c.as_slice(), line, character);
    let w = match last_non_name_exec(c.as_slice(), k) {
        Some(j) => {
            assert(c@.take(k as int).skip(j + 1) =~= c@.subrange(j + 1, k as int));
            sub_chars(c.as_slice(), j + 1, k)
        },
        None => {
            assert(c@.take(k as int) =~= c@.subrange(0, k as int));
            sub_chars(c.as_slice(), 0, k)
        },
    };
    chars_to_string(w.as_slice())
}

/// What to complete at a position: the fields of the material struct after
/// `material.` at the start of a word (in vertex scope when the line before
/// it starts with `vertex`); else the values of the property before the
/// last colon, when it is `requires`, `type` or one with enumerated values;
/// else the properties of the material block.
#[verifier::rlimit(40)]
pub fn detect_completion_context(doc: &Document, line: u32, character: u32, shading_model: Option<String>) -> (r: CompletionContext)
    requires
        doc.wf(),
        !field_context(doc.text@, position_index(doc.text@, line as int, character as int))
            ==> colon_word_readable(doc.text@, position_index(doc.text@, line as int, character as int)),
    ensures
        context_view(r) == completion_context_at(
            doc.text@,
            position_index(doc.text@, line as int, character as int),
            crate::completion::opt_view(shading_model),
        ),
{
    let c = str_to_chars(doc.text.as_str());
    let k = doc.position_index_of(c.as_slice(), line, character);
    let ghost text = c@.take(k as int);
    let pat = str_to_chars("material.");
    match last_occurrence_exec(c.as_slice(), k, pat.as_slice()) {
        Some(d) => {
            if d == 0 || !is_word_char(c[d - 1]) {
                assert(text.take(d as int) =~= c@.take(d as int));
                let vertex_scope = vertex_scope_before(c.as_slice(), d);
                return CompletionContext::MaterialField { shading_model, vertex_scope };
            }
        },
        None => {},
    }
    colon_context(c.as_slice(), k)
}

/// The text an item is matched by: its filter text, or its label.
pub open spec fn match_text(i: ItemView) -> Seq<char> {
    match i.filter_text {
        Some(f) => f,
        None => i.label,
    }
}

/// The items whose match text, in lower case, starts with the prefix in
/// lower case, in order.
pub open spec fn filtered_items(items: Seq<ItemView>, prefix: Seq<char>) -> Seq<ItemView>
    decreases items.len(),
{
    if items.len() == 0 {
        seq![]
    } else {
        filtered_items(items.drop_last(), prefix) + if has_prefix(lowercase_of(match_text(items.last())), lowercase_of(prefix)) {
            seq![items.last()]
        } else {
            seq![]
        }
    }
}

/// Keeps the completion items whose match text starts with the prefix,
/// ignoring case.
pub fn filter_completions(items: Vec<CompletionItem>, prefix: &str) -> (r: Vec<CompletionItem>)
    ensures
        items_view(r@) == filtered_items(items_view(items@), prefix@),
{
    let lp = to_lowercase(prefix);
    let lpc = str_to_chars(lp.as_str());
    let ghost iv = items_view(items@);
    let mut out: Vec<CompletionItem> = Vec::new();
    let mut rest = items;
    let mut taken: usize = 0;
    let ghost all = rest@;
    let n = rest.len();
    let mut keep: Vec<bool> = Vec::new();
    let mut i: usize = 0;
    while i < n
        invariant
            i <= n == all.len(),
            rest@ == all,
            iv == items_view(all),
            lpc@ == lowercase_of(prefix@),
            keep@.len() == i,
            forall|j: int| 0 <= j < i ==> keep@[j] == has_prefix(lowercase_of(match_text(iv[j])), lowercase_of(prefix@)),
        decreases n - i,
    {
        let it = &rest[i];
        let mt = match &it.filter_text {
            Some(f) => to_lowercase(f.as_str()),
            None => to_lowercase(it.label.as_str()),
        };
        let mc = str_to_chars(mt.as_str());
        let b = chars_occur_at(mc.as_slice(), lpc.as_slice(), 0);
        assert(b ==> mc@.take(lpc@.len() as int) =~= mc@.subrange(0, lpc@.len() as int));
        assert(has_prefix(mc@, lpc@) ==> mc@.subrange(0, lpc@.len() as int) =~= mc@.take(lpc@.len() as int));
        keep.push(b);
        i = i + 1;
    }
    let mut j: usize = 0;
    let ghost kept = keep@;
    while rest.len() > 0
        invariant
            j + rest@.len() == n == all.len(),
            rest@ == all.skip(j as int),
            keep@ == kept,
            kept.len() == n,
            iv == items_view(all),
            forall|m: int| 0 <= m < n ==> kept[m] == has_prefix(lowercase_of(match_text(iv[m])), lowercase_of(prefix@)),
            items_view(out@) == filtered_items(iv.take(j as int), prefix@),
        decreases rest.len(),
    {
        let it = rest.remove(0);
        assert(iv.take(j + 1).drop_last() =~= iv.take(j as int));
        assert(all.skip(j as int)[0] == all[j as int]);
        if keep[j] {
            let ghost prev = out@;
            out.push(it);
            assert(items_view(out@) =~= items_view(prev).push(it@));
        }
        assert(rest@ =~= all.skip(j + 1));
        j = j + 1;
    }
    assert(iv.take(j as int) =~= iv);
    out
}

/// The completion list at a position of a document (or of no document):
/// the items of the context there, kept when they start with the word
/// before the position (ignoring case); incomplete when that word is not
/// empty.
pub fn completion_list(doc: Option<&Document>, line: u32, character: u32) -> (r: (Vec<CompletionItem>, bool))
    requires
        doc matches Some(d) ==> d.wf() && completion_readable(d.text@, position_index(d.text@, line as int, character as int)),
    ensures
        match doc {
            Some(d) => {
                let k = position_index(d.text@, line as int, character as int);
                let p = prefix_word(d.text@, k);
                &&& r.1 == (p.len() > 0)
                &&& exists|ctx: CompletionContext, all: Seq<ItemView>| #![trigger completions_ok(ctx, all)]
                    context_view(ctx) == completion_context_at(d.text@, k, None) && completions_ok(ctx, all)
                        && items_view(r.0@) == filtered_items(all, p)
            },
            None => {
                &&& !r.1
                &&& exists|all: Seq<ItemView>| #![trigger completions_ok(CompletionContext::MaterialBlock, all)]
                    completions_ok(CompletionContext::MaterialBlock, all) && items_view(r.0@) == filtered_items(all, seq![])
            },
        },
{
    let (context, prefix) = match doc {
        Some(d) => (detect_completion_context(d, line, character, None), extract_completion_prefix(d, line, character)),
        None => (CompletionContext::MaterialBlock, String::new()),
    };
    let ghost ctx = context;
    let engine = CompletionEngine::new();
    let items = engine.get_completions(context);
    let ghost all = items_view(items@);
    let incomplete = prefix.as_str().unicode_len() > 0;
    let kept = filter_completions(items, prefix.as_str());
    proof {
        assert(completions_ok(ctx, all));
    }
    (kept, incomplete)
}

/// The end of the first piece of `s` from index `i`: the first `,` or `}`,
/// or the end.
pub open spec fn piece_end(s: Seq<char>, i: int) -> int
    decreases s.len() - i,
{
    if i < 0 || i >= s.len() || s[i] == ',' || s[i] == '}' {
        i
    } else {
        piece_end(s, i + 1)
    }
}

/// The value of a property line: after the first colon of the trimmed line,
/// up to the first comma or closing brace, without surrounding whitespace.
pub open spec fn link_value(t: Seq<char>) -> Option<Seq<char>> {
    match first_occurrence(t, ":"@, 0) {
        Some(ci) => {
            let vp = trim(t.skip(ci + 1));
            Some(trim(vp.take(piece_end(vp, 0))))
        },
        None => None,
    }
}

/// A link from a property value to its documentation: line, start and end
/// byte columns, target and tooltip.
pub type LinkView = (u32, u32, u32, Seq<char>, Seq<char>);

/// The link of property `name` (anchor `anchor`) on a line, if the trimmed
/// line mentions the property and has a non-empty value after a colon: the
/// value is placed where it first occurs in the line.
pub open spec fn prop_link(line: Seq<char>, idx: int, name: Seq<char>, anchor: Seq<char>) -> Option<LinkView> {
    let t = trim(line);
    if first_occurrence(t, name, 0) is Some {
        match link_value(t) {
            Some(v) => if v.len() > 0 {
                let start = match first_occurrence(line, v, 0) {
                    Some(j) => bytes(line, j),
                    None => 0,
                };
                Some((idx as u32, start as u32, (start + utf8_len(v)) as u32,
                    "https://google.github.io/filament/Materials.html#"@ + anchor, "Open Filament "@ + name + " documentation"@))
            } else {
                None
            },
            None => None,
        }
    } else {
        None
    }
}

pub open spec fn opt_seq<T>(o: Option<T>) -> Seq<T> {
    match o {
        Some(x) => seq![x],
        None => seq![],
    }
}

/// The links of one line, for `shadingModel`, `blending`, `culling` and
/// `transparency` in that order.
pub open spec fn line_links(line: Seq<char>, idx: int) -> Seq<LinkView> {
    opt_seq(prop_link(line, idx, "shadingModel"@, "shadingmodel"@)) + opt_seq(prop_link(line, idx, "blending"@, "blending"@))
        + opt_seq(prop_link(line, idx, "culling"@, "culling"@)) + opt_seq(prop_link(line, idx, "transparency"@, "transparency"@))
}

/// The links of the first `n` lines.
pub open spec fn links_of_lines(lines: Seq<Seq<char>>, n: int) -> Seq<LinkView>
    decreases n,
{
    if n <= 0 {
        seq![]
    } else {
        links_of_lines(lines, n - 1) + line_links(lines[n - 1], n - 1)
    }
}

/// A link to the documentation of a property.
pub struct DocumentLinkData {
    pub line: u32,
    pub start: u32,
    pub end: u32,
    pub target: String,
    pub tooltip: String,
}

pub open spec fn link_view(l: DocumentLinkData) -> LinkView {
    (l.line, l.start, l.end, l.target@, l.tooltip@)
}

/// Each line's UTF-8 length fits in 32 bits.
pub open spec fn lines_fit(c: Seq<char>) -> bool {
    forall|i: int| 0 <= i < text_lines(c).len() ==> utf8_len(#[trigger] text_lines(c)[i]) < u32::MAX
}

fn piece_end_exec(s: &[char]) -> (r: usize)
    ensures
        r == piece_end(s@, 0),
        r <= s@.len(),
{
    let mut i: usize = 0;
    while i < s.len() && s[i] != ',' && s[i] != '}'
        invariant
            i <= s@.len(),
            piece_end(s@, 0) == piece_end(s@, i as int),
        decreases s.len() - i,
    {
        i = i + 1;
    }
    i
}

proof fn lemma_trimmed_len(s: Seq<char>)
    ensures
        0 <= trimmed_len(s) <= s.len(),
    decreases s.len(),
{
    if s.len() > 0 {
        lemma_trimmed_len(s.drop_last());
    }
}

/// A trimmed text occurs in the text.
proof fn lemma_trim_at(s: Seq<char>) -> (a: int)
    ensures
        occurs_at(s, trim(s), a),
{
    let a = first_stop(s, 0, Stop::NonWs);
    lemma_first_stop(s, 0, Stop::NonWs);
    lemma_trimmed_len(s.skip(a));
    a
}

/// What occurs in a part of a text occurs in the text.
proof fn lemma_occurs_trans(x: Seq<char>, y: Seq<char>, z: Seq<char>, a: int, b: int)
    requires
        occurs_at(x, y, a),
        occurs_at(y, z, b),
    ensures
        occurs_at(x, z, a + b),
{
    assert(x.subrange(a + b, a + b + z.len()) =~= y.subrange(b, b + z.len()));
}

/// A pattern that occurs at `k` is found searching from any `from <= k`.
proof fn lemma_first_occurrence_some(c: Seq<char>, p: Seq<char>, k: int, from: int)
    requires
        occurs_at(c, p, k),
        0 <= from <= k,
    ensures
        first_occurrence(c, p, from) is Some,
    decreases k - from,
{
    if !occurs_at(c, p, from) {
        lemma_first_occurrence_some(c, p, k, from + 1);
    }
}

fn push_link(out: &mut Vec<DocumentLinkData>, line: &[char], t: &[char], idx: usize, name: &str, anchor: &str)
    requires
        t@ == trim(line@),
        name@.len() > 0,
        utf8_len(line@) < u32::MAX,
    ensures
        final(out)@.map_values(|l: DocumentLinkData| link_view(l)) == old(out)@.map_values(|l: DocumentLinkData| link_view(l))
            + opt_seq(prop_link(line@, idx as int, name@, anchor@)),
{
    let ghost before = out@.map_values(|l: DocumentLinkData| link_view(l));
    let nc = str_to_chars(name);
    let colon = str_to_chars(":");
    proof {
        reveal_strlit(":");
        reveal_strlit("");
    }
    if first_occurrence_exec(t, nc.as_slice(), 0).is_none() {
        assert(opt_seq(prop_link(line@, idx as int, name@, anchor@)) =~= Seq::<LinkView>::empty());
        assert(out@.map_values(|l: DocumentLinkData| link_view(l)) =~= before + Seq::<LinkView>::empty());
        return;
    }
    match first_occurrence_exec(t, colon.as_slice(), 0) {
        Some(ci) => {
            assert(colon@.len() == 1);
            assert(occurs_at(t@, colon@, ci as int));
            let tl = t.len();
            assert(ci + 1 <= tl);
            let rest = sub_chars(t, ci + 1, tl);
            assert(rest@ =~= t@.skip(ci + 1));
            let vp = trim_exec(rest.as_slice());
            let pe = piece_end_exec(vp.as_slice());
            let head = sub_chars(vp.as_slice(), 0, pe);
            assert(head@ =~= vp@.take(pe as int));
            let v = trim_exec(head.as_slice());
            proof {
                let a1 = lemma_trim_at(line@);
                assert(occurs_at(t@, rest@, ci + 1)) by {
                    assert(t@.subrange(ci + 1, ci + 1 + rest@.len()) =~= rest@);
                }
                let a2 = lemma_trim_at(rest@);
                assert(occurs_at(vp@, head@, 0)) by {
                    assert(vp@.subrange(0, head@.len() as int) =~= head@);
                }
                let a3 = lemma_trim_at(head@);
                lemma_occurs_trans(line@, t@, rest@, a1, ci + 1);
                lemma_occurs_trans(line@, rest@, vp@, a1 + ci + 1, a2);
                lemma_occurs_trans(line@, vp@, head@, a1 + ci + 1 + a2, 0);
                lemma_occurs_trans(line@, head@, v@, a1 + ci + 1 + a2, a3);
                if v@.len() > 0 {
                    lemma_first_occurrence_some(line@, v@, a1 + ci + 1 + a2 + a3, 0);
                }
            }
            if v.len() == 0 {
                assert(opt_seq(prop_link(line@, idx as int, name@, anchor@)) =~= Seq::<LinkView>::empty());
                assert(out@.map_values(|l: DocumentLinkData| link_view(l)) =~= before + Seq::<LinkView>::empty());
                return;
            }
            let (start, vlen) = match first_occurrence_exec(line, v.as_slice(), 0) {
                Some(j) => {
                    proof {
                        lemma_utf8_len_sub_occ(line@, v@, j as int);
                        crate::text::lemma_utf8_len_ge(line@);
                    }
                    let st = crate::document::bytes_to(line, j);
                    let vl = crate::text::utf8_count(v.as_slice(), 0, v.len());
                    proof {
                        assert(v@.subrange(0, v@.len() as int) =~= v@);
                    }
                    (st, vl)
                },
                None => {
                    proof {
                        assert(false);
                    }
                    (0, 0)
                },
            };
            let mut target = to_owned_string("https://google.github.io/filament/Materials.html#");
            string_push_str(&mut target, anchor);
            let mut tooltip = to_owned_string("Open Filament ");
            string_push_str(&mut tooltip, name);
            string_push_str(&mut tooltip, " documentation");
            let ghost prev = out@;
            out.push(DocumentLinkData { line: idx as u32, start: start as u32, end: (start + vlen) as u32, target, tooltip });
            assert(out@.map_values(|l: DocumentLinkData| link_view(l)) =~= prev.map_values(|l: DocumentLinkData| link_view(l)).push(
                prop_link(line@, idx as int, name@, anchor@).unwrap(),
            ));
        },
        None => {
            assert(opt_seq(prop_link(line@, idx as int, name@, anchor@)) =~= Seq::<LinkView>::empty());
            assert(out@.map_values(|l: DocumentLinkData| link_view(l)) =~= before + Seq::<LinkView>::empty());
        },
    }
}

/// Where a pattern occurs, its bytes end within the text's.
proof fn lemma_utf8_len_sub_occ(line: Seq<char>, v: Seq<char>, j: int)
    requires
        occurs_at(line, v, j),
    ensures
        bytes(line, j) + utf8_len(v) <= utf8_len(line),
{
    crate::text::lemma_utf8_len_sub(line, j, j + v.len());
    crate::text::lemma_utf8_len_sub(line, j + v.len(), line.len() as int);
    assert(line.take(line.len() as int) =~= line);
}

/// The links from property values to the documentation in a text, line by
/// line.
#[verifier::rlimit(40)]
pub fn document_links(text: &str) -> (r: Vec<DocumentLinkData>)
    requires
        lines_fit(text@),
    ensures
        r@.map_values(|l: DocumentLinkData| link_view(l)) == links_of_lines(text_lines(text@), text_lines(text@).len() as int),
{
    let c = str_to_chars(text);
    let lines = split_lines(c.as_slice());
    let ghost ls = lines@.map_values(|l: Vec<char>| l@);
    let mut out: Vec<DocumentLinkData> = Vec::new();
    let mut i: usize = 0;
    while i < lines.len()
        invariant
            i <= lines@.len(),
            ls == lines@.map_values(|l: Vec<char>| l@),
            ls == text_lines(text@),
            lines_fit(text@),
            out@.map_values(|l: DocumentLinkData| link_view(l)) == links_of_lines(ls, i as int),
        decreases lines.len() - i,
    {
        let line = lines[i].as_slice();
        assert(ls[i as int] == line@);
        assert(utf8_len(text_lines(text@)[i as int]) < u32::MAX);
        proof {
            reveal_strlit("shadingModel");
            reveal_strlit("blending");
            reveal_strlit("culling");
            reveal_strlit("transparency");
        }
        let t = trim_exec(line);
        push_link(&mut out, line, t.as_slice(), i, "shadingModel", "shadingmodel");
        push_link(&mut out, line, t.as_slice(), i, "blending", "blending");
        push_link(&mut out, line, t.as_slice(), i, "culling", "culling");
        push_link(&mut out, line, t.as_slice(), i, "transparency", "transparency");
        i = i + 1;
    }
    out
}

/// Completion filtering keeps only items whose match text starts with the
/// prefix, ignoring case, and keeps no item that was not offered.
pub proof fn lemma_filtered_items(items: Seq<ItemView>, prefix: Seq<char>)
    ensures
        filtered_items(items, prefix).len() <= items.len(),
        forall|i: int| 0 <= i < filtered_items(items, prefix).len() ==> has_prefix(
            lowercase_of(match_text(#[trigger] filtered_items(items, prefix)[i])),
            lowercase_of(prefix),
        ) && items.contains(filtered_items(items, prefix)[i]),
    decreases items.len(),
{
    if items.len() > 0 {
        let rest = items.drop_last();
        lemma_filtered_items(rest, prefix);
        let f = filtered_items(items, prefix);
        let fr = filtered_items(rest, prefix);
        assert forall|i: int| 0 <= i < f.len() implies has_prefix(lowercase_of(match_text(#[trigger] f[i])), lowercase_of(prefix))
            && items.contains(f[i]) by {
            if i < fr.len() {
                assert(f[i] == fr[i]);
                let j = choose|j: int| 0 <= j < rest.len() && rest[j] == fr[i];
                assert(items[j] == rest[j]);
            } else {
                assert(f[i] == items.last());
                assert(items[items.len() - 1] == items.last());
            }
        }
    }
}

/// Every folding range spans more than one line.
pub proof fn lemma_folds_span_lines(toks: Seq<Token>)
    ensures
        forall|i: int| 0 <= i < fold_scan(toks).0.len() ==> (#[trigger] fold_scan(toks).0[i]).start_line < fold_scan(toks).0[i].end_line,
    decreases toks.len(),
{
    if toks.len() > 0 {
        lemma_folds_span_lines(toks.drop_last());
        let r = fold_scan(toks.drop_last());
        let f = fold_scan(toks).0;
        assert forall|i: int| 0 <= i < f.len() implies (#[trigger] f[i]).start_line < f[i].end_line by {
            if i < r.0.len() {
                assert(f[i] == r.0[i]);
            }
        }
    }
}

/// Formatting keeps shader code as it is: a line read while a shader
/// block's code is passed through, that opens no block, is written
/// unchanged, and the indent level is kept.
pub proof fn lemma_glsl_lines_kept(st: FmtState, line: Seq<char>, t: Seq<char>)
    requires
        glsl_after(t, st.1),
        !block_start(t),
    ensures
        fmt_line(st, line, t).0 == line,
        fmt_line(st, line, t).1 == (st.0, true),
{
}


/// Lines joined, each followed by a line feed.
pub open spec fn join_lines(ys: Seq<Seq<char>>) -> Seq<char>
    decreases ys.len(),
{
    if ys.len() == 0 {
        seq![]
    } else {
        join_lines(ys.drop_last()) + ys.last() + seq!['\n']
    }
}

/// The text formatting writes for each line, from state `st`.
pub open spec fn fmt_outs(lines: Seq<Seq<char>>, st: FmtState) -> Seq<Seq<char>>
    decreases lines.len(),
{
    if lines.len() == 0 {
        seq![]
    } else {
        let r = format_lines(lines.drop_last(), st);
        let t = trim(lines.last());
        fmt_outs(lines.drop_last(), st).push(if t.len() == 0 { seq![] } else { fmt_line(r.1, lines.last(), t).0 })
    }
}

/// No line feed and no carriage return.
pub open spec fn plain_line(x: Seq<char>) -> bool {
    forall|i: int| 0 <= i < x.len() ==> #[trigger] x[i] != '\n' && x[i] != '\r'
}

proof fn lemma_format_join(lines: Seq<Seq<char>>, st: FmtState)
    ensures
        format_lines(lines, st).0 == join_lines(fmt_outs(lines, st)),
        fmt_outs(lines, st).len() == lines.len(),
    decreases lines.len(),
{
    reveal_strlit("\n");
    if lines.len() > 0 {
        lemma_format_join(lines.drop_last(), st);
        let ys = fmt_outs(lines, st);
        assert(ys.drop_last() =~= fmt_outs(lines.drop_last(), st));
        assert("\n"@ =~= seq!['\n']);
        let r = format_lines(lines.drop_last(), st);
        if trim(lines.last()).len() == 0 {
            assert(r.0.push('\n') =~= r.0 + Seq::<char>::empty() + seq!['\n']);
        }
    }
}

/// A trimmed line starts and ends with a character that is not white
/// space.
proof fn lemma_trim_ends(x: Seq<char>)
    ensures
        trim(x).len() > 0 ==> !is_ws(trim(x)[0]) && !is_ws(trim(x).last()),
        forall|i: int| 0 <= i < trim(x).len() ==> exists|k: int| 0 <= k < x.len() && #[trigger] trim(x)[i] == x[k],
{
    lemma_first_stop(x, 0, Stop::NonWs);
    let a = first_stop(x, 0, Stop::NonWs);
    lemma_trimmed_last(x.skip(a));
    lemma_trimmed_len(x.skip(a));
    crate::shader_symbols::lemma_trim_at(x);
    let t = trim(x);
    if t.len() > 0 {
        let n = trimmed_len(x.skip(a));
        assert(t.len() == n);
        assert(t[0] == x[a]);
        assert(t.last() == x.skip(a)[n - 1]);
    }
    assert forall|i: int| 0 <= i < t.len() implies exists|k: int| 0 <= k < x.len() && #[trigger] t[i] == x[k] by {
        assert(t[i] == x.subrange(a, a + t.len())[i]);
        assert(t[i] == x[a + i]);
    }
}

proof fn lemma_trimmed_last(s: Seq<char>)
    ensures
        trimmed_len(s) > 0 ==> !is_ws(s[trimmed_len(s) - 1]),
    decreases s.len(),
{
    if s.len() > 0 && is_ws(s.last()) {
        lemma_trimmed_last(s.drop_last());
        lemma_trimmed_len(s.drop_last());
        if trimmed_len(s) > 0 {
            assert(s.drop_last()[trimmed_len(s) - 1] == s[trimmed_len(s) - 1]);
        }
    }
}

/// `n` levels of indent are spaces only.
proof fn lemma_indent_spaces(n: nat)
    ensures
        indent(n).len() == 4 * n,
        forall|i: int| 0 <= i < indent(n).len() ==> #[trigger] indent(n)[i] == ' ',
    decreases n,
{
    reveal_strlit("    ");
    if n > 0 {
        lemma_indent_spaces((n - 1) as nat);
        assert forall|i: int| 0 <= i < indent(n).len() implies #[trigger] indent(n)[i] == ' ' by {
            if i < indent((n - 1) as nat).len() {
                assert(indent(n)[i] == indent((n - 1) as nat)[i]);
            }
        }
    }
}

/// Trimming an indented trimmed line gives the line.
proof fn lemma_trim_indented(n: nat, t: Seq<char>)
    requires
        t.len() > 0,
        !is_ws(t[0]),
        !is_ws(t.last()),
    ensures
        trim(indent(n) + t) == t,
{
    lemma_indent_spaces(n);
    let s = indent(n) + t;
    let k = indent(n).len() as int;
    assert forall|i: int| 0 <= i < k implies !stops(Stop::NonWs, #[trigger] s[i]) by {
        assert(s[i] == ' ');
    }
    lemma_first_stop_at(s, 0, k);
    assert(s.skip(k) =~= t);
    assert(trimmed_len(t) == t.len());
    assert(s.subrange(k, k + t.len()) =~= t);
}

/// The first stop from `s` is at `k` when nothing before `k` stops and
/// `k` does.
proof fn lemma_first_stop_at(c: Seq<char>, s: int, k: int)
    requires
        0 <= s <= k < c.len(),
        forall|i: int| s <= i < k ==> !stops(Stop::NonWs, #[trigger] c[i]),
        stops(Stop::NonWs, c[k]),
    ensures
        first_stop(c, s, Stop::NonWs) == k,
    decreases k - s,
{
    if s < k {
        lemma_first_stop_at(c, s + 1, k);
    }
}

/// Formatting the written lines again writes the same text and reaches the
/// same states.
proof fn lemma_format_outs_again(lines: Seq<Seq<char>>, st: FmtState)
    ensures
        format_lines(fmt_outs(lines, st), st) == format_lines(lines, st),
    decreases lines.len(),
{
    if lines.len() > 0 {
        lemma_format_outs_again(lines.drop_last(), st);
        let ys = fmt_outs(lines, st);
        assert(ys.drop_last() =~= fmt_outs(lines.drop_last(), st));
        let r = format_lines(lines.drop_last(), st);
        let x = lines.last();
        let t = trim(x);
        let y = ys.last();
        if t.len() == 0 {
            assert(y =~= Seq::<char>::empty());
            assert(trim(y).len() == 0);
        } else {
            lemma_trim_ends(x);
            let in2 = glsl_after(t, r.1.1);
            if !(in2 && !block_start(t)) {
                let ind1 = if starts_with_char(t, '}') { sat_dec(r.1.0) } else { r.1.0 };
                assert(y == indent(ind1) + t);
                lemma_trim_indented(ind1, t);
            }
            assert(trim(y) == t);
        }
    }
}

/// The lines written for clean lines are clean.
proof fn lemma_outs_plain(lines: Seq<Seq<char>>, st: FmtState)
    requires
        forall|i: int| 0 <= i < lines.len() ==> plain_line(#[trigger] lines[i]),
    ensures
        forall|i: int| 0 <= i < fmt_outs(lines, st).len() ==> plain_line(#[trigger] fmt_outs(lines, st)[i]),
    decreases lines.len(),
{
    if lines.len() > 0 {
        assert forall|i: int| 0 <= i < lines.drop_last().len() implies plain_line(#[trigger] lines.drop_last()[i]) by {
            assert(lines.drop_last()[i] == lines[i]);
        }
        lemma_outs_plain(lines.drop_last(), st);
        let ys = fmt_outs(lines, st);
        let x = lines.last();
        assert(plain_line(lines[lines.len() - 1]));
        let t = trim(x);
        lemma_trim_ends(x);
        let y = ys.last();
        assert(plain_line(y)) by {
            if t.len() > 0 {
                let r = format_lines(lines.drop_last(), st);
                let in2 = glsl_after(t, r.1.1);
                if !(in2 && !block_start(t)) {
                    let ind1 = if starts_with_char(t, '}') { sat_dec(r.1.0) } else { r.1.0 };
                    lemma_indent_spaces(ind1);
                    assert forall|i: int| 0 <= i < y.len() implies #[trigger] y[i] != '\n' && y[i] != '\r' by {
                        if i >= indent(ind1).len() {
                            assert(y[i] == t[i - indent(ind1).len()]);
                            let k = choose|k: int| 0 <= k < x.len() && t[i - indent(ind1).len()] == x[k];
                            assert(x[k] != '\n');
                        }
                    }
                }
            }
        }
        assert forall|i: int| 0 <= i < ys.len() implies plain_line(#[trigger] ys[i]) by {
            if i < ys.len() - 1 {
                assert(ys[i] == fmt_outs(lines.drop_last(), st)[i]);
            }
        }
    }
}

/// The first line feed from `s` of a text with a prefix is the one of the
/// rest, shifted.
proof fn lemma_stop_shift(p: Seq<char>, q: Seq<char>, s: int)
    requires
        0 <= s <= q.len(),
    ensures
        first_stop(p + q, p.len() + s, Stop::Newline) == p.len() + first_stop(q, s, Stop::Newline),
    decreases q.len() - s,
{
    if s < q.len() {
        assert((p + q)[p.len() + s] == q[s]);
        lemma_stop_shift(p, q, s + 1);
    }
}

/// The lines of a text after a prefix that ends a line are those of the
/// rest.
proof fn lemma_lines_shift(p: Seq<char>, q: Seq<char>, s: int)
    requires
        0 <= s,
    ensures
        lines_from(p + q, p.len() + s) == lines_from(q, s),
    decreases q.len() + 1 - s,
{
    if s < q.len() {
        lemma_stop_shift(p, q, s);
        lemma_first_stop(q, s, Stop::Newline);
        let e = first_stop(q, s, Stop::Newline);
        assert((p + q).subrange(p.len() + s, p.len() + e) =~= q.subrange(s, e));
        assert(line_at(p + q, p.len() + s) == line_at(q, s));
        lemma_lines_shift(p, q, e + 1);
        assert(p.len() + e + 1 == line_end(p + q, p.len() + s) + 1);
    }
}

/// Joining lines and splitting them again gives them back.
proof fn lemma_lines_of_join(ys: Seq<Seq<char>>)
    requires
        forall|i: int| 0 <= i < ys.len() ==> plain_line(#[trigger] ys[i]),
    ensures
        text_lines(join_lines(ys)) == ys,
    decreases ys.len(),
{
    if ys.len() > 0 {
        let y0 = ys[0];
        let rest = ys.drop_first();
        assert forall|i: int| 0 <= i < rest.len() implies plain_line(#[trigger] rest[i]) by {
            assert(rest[i] == ys[i + 1]);
        }
        lemma_lines_of_join(rest);
        lemma_join_first(ys);
        let p = y0 + seq!['\n'];
        let q = join_lines(rest);
        let c = p + q;
        assert(plain_line(ys[0]));
        assert forall|j: int| 0 <= j < y0.len() implies !stops(Stop::Newline, #[trigger] c[j]) by {
            assert(c[j] == y0[j]);
        }
        lemma_newline_at(c, 0, y0.len() as int);
        assert(c.subrange(0, y0.len() as int) =~= y0);
        if y0.len() > 0 {
            assert(y0.last() != '\r');
        }
        assert(line_at(c, 0) == y0);
        lemma_lines_shift(p, q, 0);
        assert(text_lines(c) =~= seq![y0] + lines_from(q, 0));
        assert(ys =~= seq![y0] + rest);
    } else {
        assert(join_lines(ys) =~= Seq::<char>::empty());
    }
}

proof fn lemma_newline_at(c: Seq<char>, s: int, k: int)
    requires
        0 <= s <= k < c.len(),
        forall|i: int| s <= i < k ==> !stops(Stop::Newline, #[trigger] c[i]),
        c[k] == '\n',
    ensures
        first_stop(c, s, Stop::Newline) == k,
    decreases k - s,
{
    if s < k {
        lemma_newline_at(c, s + 1, k);
    }
}

/// Joining lines puts the first one first.
proof fn lemma_join_first(ys: Seq<Seq<char>>)
    requires
        ys.len() > 0,
    ensures
        join_lines(ys) == ys[0] + seq!['\n'] + join_lines(ys.drop_first()),
    decreases ys.len(),
{
    if ys.len() > 1 {
        lemma_join_first(ys.drop_last());
        assert(ys.drop_last().drop_first() =~= ys.drop_first().drop_last());
        assert(ys.drop_first().last() == ys.last());
        assert(ys.drop_last()[0] == ys[0]);
        assert(join_lines(ys) =~= ys[0] + seq!['\n'] + join_lines(ys.drop_first()));
    } else {
        assert(ys.drop_first() =~= Seq::<Seq<char>>::empty());
        assert(ys.drop_last() =~= Seq::<Seq<char>>::empty());
        assert(join_lines(ys) =~= ys[0] + seq!['\n'] + join_lines(ys.drop_first()));
    }
}

/// The lines of a text without carriage returns are clean.
proof fn lemma_text_lines_plain(c: Seq<char>, s: int)
    requires
        forall|i: int| 0 <= i < c.len() ==> c[i] != '\r',
        0 <= s,
    ensures
        forall|i: int| 0 <= i < lines_from(c, s).len() ==> plain_line(#[trigger] lines_from(c, s)[i]),
    decreases c.len() + 1 - s,
{
    if s < c.len() {
        lemma_first_stop(c, s, Stop::Newline);
        let e = line_end(c, s);
        lemma_text_lines_plain(c, e + 1);
        let l = line_at(c, s);
        assert(l == c.subrange(s, e)) by {
            if e < c.len() && c.subrange(s, e).len() > 0 {
                assert(c.subrange(s, e).last() == c[e - 1]);
            }
        }
        assert(plain_line(l)) by {
            assert forall|i: int| 0 <= i < l.len() implies #[trigger] l[i] != '\n' && l[i] != '\r' by {
                assert(l[i] == c[s + i]);
                assert(!stops(Stop::Newline, c[s + i]));
            }
        }
        let all = lines_from(c, s);
        let rest = lines_from(c, e + 1);
        assert(all == seq![l] + rest);
        assert forall|i: int| 0 <= i < all.len() implies plain_line(#[trigger] all[i]) by {
            if i > 0 {
                assert(all[i] == rest[i - 1]);
            }
        }
    }
}

/// Formatting is idempotent on text without carriage returns: formatting
/// the formatted text changes nothing.
pub proof fn lemma_format_idempotent(c: Seq<char>)
    requires
        forall|i: int| 0 <= i < c.len() ==> c[i] != '\r',
    ensures
        formatted(formatted(c)) == formatted(c),
{
    let lines = text_lines(c);
    let st: FmtState = (0, false);
    lemma_text_lines_plain(c, 0);
    lemma_format_join(lines, st);
    lemma_outs_plain(lines, st);
    let ys = fmt_outs(lines, st);
    lemma_lines_of_join(ys);
    lemma_format_outs_again(lines, st);
}


/// Each written line has the trimmed text of its source line.
proof fn lemma_outs_trim(lines: Seq<Seq<char>>, st: FmtState)
    ensures
        fmt_outs(lines, st).len() == lines.len(),
        forall|i: int| 0 <= i < lines.len() ==> trim(#[trigger] fmt_outs(lines, st)[i]) == trim(lines[i]),
    decreases lines.len(),
{
    if lines.len() > 0 {
        lemma_outs_trim(lines.drop_last(), st);
        let ys = fmt_outs(lines, st);
        let prev = fmt_outs(lines.drop_last(), st);
        assert(ys.drop_last() =~= prev);
        let r = format_lines(lines.drop_last(), st);
        let x = lines.last();
        let t = trim(x);
        let y = ys.last();
        if t.len() == 0 {
            assert(y =~= Seq::<char>::empty());
            assert(trim(y) =~= Seq::<char>::empty());
            assert(t =~= Seq::<char>::empty());
        } else {
            lemma_trim_ends(x);
            let in2 = glsl_after(t, r.1.1);
            if !(in2 && !block_start(t)) {
                let ind1 = if starts_with_char(t, '}') { sat_dec(r.1.0) } else { r.1.0 };
                lemma_trim_indented(ind1, t);
            }
        }
        assert forall|i: int| 0 <= i < lines.len() implies trim(#[trigger] ys[i]) == trim(lines[i]) by {
            if i < lines.len() - 1 {
                assert(ys[i] == prev[i]);
                assert(lines[i] == lines.drop_last()[i]);
                assert(trim(prev[i]) == trim(lines.drop_last()[i]));
            }
        }
    }
}

/// On text without carriage returns, formatting keeps one line per source
/// line, each ended by a line feed and with the same text once trimmed
/// (a blank line becomes empty): it changes only the indentation.
pub proof fn lemma_format_keeps_lines(c: Seq<char>)
    requires
        forall|i: int| 0 <= i < c.len() ==> c[i] != '\r',
    ensures
        text_lines(formatted(c)).len() == text_lines(c).len(),
        forall|i: int| 0 <= i < text_lines(c).len() ==> trim(#[trigger] text_lines(formatted(c))[i]) == trim(text_lines(c)[i]),
        formatted(c) == join_lines(text_lines(formatted(c))),
{
    let lines = text_lines(c);
    let st: FmtState = (0, false);
    lemma_text_lines_plain(c, 0);
    lemma_format_join(lines, st);
    lemma_outs_plain(lines, st);
    lemma_lines_of_join(fmt_outs(lines, st));
    lemma_outs_trim(lines, st);
}

} // verus!
