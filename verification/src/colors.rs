//! Colour literals in shader code: every `vec3(...)`, `vec4(...)`,
//! `float3(...)` and `float4(...)` whose components are written as numbers,
//! found line by line with regular expressions. The library gives where each
//! literal stands and the text of its components; reading those texts as
//! floating-point numbers is left to the caller.
use vstd::prelude::*;
use crate::editor::{split_lines, text_lines};
use crate::text::{chars_to_string, to_owned_string, utf8_len};

verus! {

/// The patterns of the four colour literals, in the order they are searched.
pub open spec fn color_patterns() -> Seq<Seq<char>> {
    seq![
        r"vec3\s*\(\s*(-?[0-9.]+)\s*,\s*(-?[0-9.]+)\s*,\s*(-?[0-9.]+)\s*\)"@,
        r"vec4\s*\(\s*(-?[0-9.]+)\s*,\s*(-?[0-9.]+)\s*,\s*(-?[0-9.]+)\s*,\s*(-?[0-9.]+)\s*\)"@,
        r"float3\s*\(\s*(-?[0-9.]+)\s*,\s*(-?[0-9.]+)\s*,\s*(-?[0-9.]+)\s*\)"@,
        r"float4\s*\(\s*(-?[0-9.]+)\s*,\s*(-?[0-9.]+)\s*,\s*(-?[0-9.]+)\s*,\s*(-?[0-9.]+)\s*\)"@,
    ]
}

/// One of the colour patterns (each a valid regular expression).
pub open spec fn color_pattern(p: Seq<char>) -> bool {
    exists|k: int| 0 <= k < 4 && p == #[trigger] color_patterns()[k]
}

/// The matches of regular expression `pattern` in `line`, left to right
/// without overlapping, as `regex::Regex::captures_iter` finds them: each
/// with the byte offsets of the whole match and the texts of capture groups
/// 1 and on (`None` for a group that took no part).
pub uninterp spec fn regex_captures(pattern: Seq<char>, line: Seq<char>) -> Seq<(int, int, Seq<Option<Seq<char>>>)>;

pub open spec fn opt_view(o: Option<String>) -> Option<Seq<char>> {
    match o {
        Some(s) => Some(s@),
        None => None,
    }
}

pub open spec fn opts_view(v: Seq<Option<String>>) -> Seq<Option<Seq<char>>> {
    v.map_values(|o: Option<String>| opt_view(o))
}

pub open spec fn captures_view(r: Seq<(usize, usize, Vec<Option<String>>)>) -> Seq<(int, int, Seq<Option<Seq<char>>>)> {
    r.map_values(|c: (usize, usize, Vec<Option<String>>)| (c.0 as int, c.1 as int, opts_view(c.2@)))
}

/// `regex::Regex::new(pattern)` and `captures_iter(line)`: the matches with
/// their byte ranges and the texts of their capture groups 1 and on. The
/// contract names the result; it also states what `Match` gives: a match's
/// range lies within the line (its text is `line[start..end]`).
#[verifier::external_body]
fn captures(pattern: &str, line: &str) -> (r: Vec<(usize, usize, Vec<Option<String>>)>)
    requires
        color_pattern(pattern@),
    ensures
        captures_view(r@) == regex_captures(pattern@, line@),
        forall|i: int| 0 <= i < r@.len() ==> (#[trigger] r@[i]).0 <= r@[i].1 <= utf8_len(line@),
{
    let re = regex::Regex::new(pattern).unwrap();
    re.captures_iter(line)
        .map(|c| {
            let whole = c.get(0).unwrap();
            (whole.start(), whole.end(), (1..c.len()).map(|i| c.get(i).map(|g| g.as_str().to_string())).collect())
        })
        .collect()
}

/// The pattern of colour literal `k`.
fn color_pattern_at(k: usize) -> (r: &'static str)
    requires
        k < 4,
    ensures
        r@ == color_patterns()[k as int],
        color_pattern(r@),
{
    let r = if k == 0 {
        r"vec3\s*\(\s*(-?[0-9.]+)\s*,\s*(-?[0-9.]+)\s*,\s*(-?[0-9.]+)\s*\)"
    } else if k == 1 {
        r"vec4\s*\(\s*(-?[0-9.]+)\s*,\s*(-?[0-9.]+)\s*,\s*(-?[0-9.]+)\s*,\s*(-?[0-9.]+)\s*\)"
    } else if k == 2 {
        r"float3\s*\(\s*(-?[0-9.]+)\s*,\s*(-?[0-9.]+)\s*,\s*(-?[0-9.]+)\s*\)"
    } else {
        r"float4\s*\(\s*(-?[0-9.]+)\s*,\s*(-?[0-9.]+)\s*,\s*(-?[0-9.]+)\s*,\s*(-?[0-9.]+)\s*\)"
    };
    assert(r@ == color_patterns()[k as int]);
    r
}

/// A colour literal: its line (from 0), the byte range of the whole literal
/// within the line, and the texts of its components.
pub struct ColorLiteral {
    pub line: u32,
    pub start: u32,
    pub end: u32,
    pub components: Vec<Option<String>>,
}

pub type LiteralView = (int, int, int, Seq<Option<Seq<char>>>);

pub open spec fn literal_view(l: ColorLiteral) -> LiteralView {
    (l.line as int, l.start as int, l.end as int, opts_view(l.components@))
}

pub open spec fn literals_view(s: Seq<ColorLiteral>) -> Seq<LiteralView> {
    s.map_values(|l: ColorLiteral| literal_view(l))
}

/// The literals of the first `k` patterns on line `idx` of text `line`,
/// pattern by pattern, each pattern's matches in order.
pub open spec fn line_literals(line: Seq<char>, idx: int, k: int) -> Seq<LiteralView>
    decreases k,
{
    if k <= 0 {
        seq![]
    } else {
        line_literals(line, idx, k - 1) + regex_captures(color_patterns()[k - 1], line).map_values(
            |c: (int, int, Seq<Option<Seq<char>>>)| (idx, c.0, c.1, c.2),
        )
    }
}

/// The literals of lines, line by line.
pub open spec fn literals_of_lines(lines: Seq<Seq<char>>) -> Seq<LiteralView>
    decreases lines.len(),
{
    if lines.len() == 0 {
        seq![]
    } else {
        literals_of_lines(lines.drop_last()) + line_literals(lines.last(), lines.len() - 1, 4)
    }
}

/// The colour literals of a text: its lines as `str::lines` splits them,
/// and on each line the `vec3`, `vec4`, `float3` and `float4` literals, in
/// that order, each kind's matches in order.
pub open spec fn color_literals(text: Seq<char>) -> Seq<LiteralView> {
    literals_of_lines(text_lines(text))
}

/// Line numbers and byte columns of a text fit in 32 bits.
pub open spec fn lines_fit_u32(text: Seq<char>) -> bool {
    &&& text_lines(text).len() <= u32::MAX
    &&& forall|i: int| 0 <= i < text_lines(text).len() ==> utf8_len(#[trigger] text_lines(text)[i]) <= u32::MAX
}

fn copy_opts(v: &Vec<Option<String>>) -> (r: Vec<Option<String>>)
    ensures
        opts_view(r@) == opts_view(v@),
{
    let mut r: Vec<Option<String>> = Vec::new();
    let mut i: usize = 0;
    while i < v.len()
        invariant
            i <= v@.len(),
            opts_view(r@) == opts_view(v@.take(i as int)),
        decreases v.len() - i,
    {
        let o = match &v[i] {
            Some(s) => Some(to_owned_string(s.as_str())),
            None => None,
        };
        let ghost prev = r@;
        r.push(o);
        assert(opts_view(r@) =~= opts_view(prev).push(opt_view(o)));
        assert(v@.take(i + 1) =~= v@.take(i as int).push(v@[i as int]));
        assert(opts_view(v@.take(i + 1)) =~= opts_view(v@.take(i as int)).push(opt_view(v@[i as int])));
        i = i + 1;
    }
    assert(v@.take(i as int) =~= v@);
    r
}

/// Appends the literals that one pattern finds on a line.
fn push_line_literals(out: &mut Vec<ColorLiteral>, line: &str, idx: u32, k: usize)
    requires
        k < 4,
        utf8_len(line@) <= u32::MAX,
    ensures
        literals_view(final(out)@) == literals_view(old(out)@) + regex_captures(color_patterns()[k as int], line@).map_values(
            |c: (int, int, Seq<Option<Seq<char>>>)| (idx as int, c.0, c.1, c.2),
        ),
{
    let pat = color_pattern_at(k);
    let caps = captures(pat, line);
    let ghost cv = captures_view(caps@);
    let ghost o = literals_view(out@);
    let mut i: usize = 0;
    while i < caps.len()
        invariant
            i <= caps@.len(),
            cv == captures_view(caps@),
            utf8_len(line@) <= u32::MAX,
            forall|j: int| 0 <= j < caps@.len() ==> (#[trigger] caps@[j]).0 <= caps@[j].1 <= utf8_len(line@),
            literals_view(out@) == o + cv.take(i as int).map_values(
                |c: (int, int, Seq<Option<Seq<char>>>)| (idx as int, c.0, c.1, c.2),
            ),
        decreases caps.len() - i,
    {
        let c = &caps[i];
        let lit = ColorLiteral { line: idx, start: c.0 as u32, end: c.1 as u32, components: copy_opts(&c.2) };
        let ghost prev = out@;
        out.push(lit);
        assert(literals_view(out@) =~= literals_view(prev).push(literal_view(lit)));
        assert(cv.take(i + 1) =~= cv.take(i as int).push(cv[i as int]));
        i = i + 1;
    }
    assert(cv.take(i as int) =~= cv);
}

/// The colour literals of a text, each with its line, its byte range on the
/// line and the texts of its components.
pub fn find_color_literals(text: &str) -> (r: Vec<ColorLiteral>)
    requires
        lines_fit_u32(text@),
    ensures
        literals_view(r@) == color_literals(text@),
{
    let c = crate::text::str_to_chars(text);
    let lines = split_lines(c.as_slice());
    let ghost ls = lines@.map_values(|l: Vec<char>| l@);
    let mut out: Vec<ColorLiteral> = Vec::new();
    let mut i: usize = 0;
    assert(ls.take(0) =~= Seq::<Seq<char>>::empty());
    assert(literals_view(out@) =~= Seq::<LiteralView>::empty());
    while i < lines.len()
        invariant
            i <= lines@.len(),
            ls == lines@.map_values(|l: Vec<char>| l@),
            ls == text_lines(text@),
            lines_fit_u32(text@),
            literals_view(out@) == literals_of_lines(ls.take(i as int)),
        decreases lines.len() - i,
    {
        let line = chars_to_string(lines[i].as_slice());
        assert(line@ == ls[i as int]);
        assert(utf8_len(text_lines(text@)[i as int]) <= u32::MAX);
        assert(ls.len() == lines@.len());
        let ghost before = literals_view(out@);
        let mut k: usize = 0;
        while k < 4
            invariant
                k <= 4,
                i < lines@.len(),
                i < u32::MAX,
                ls == text_lines(text@),
                lines_fit_u32(text@),
                line@ == ls[i as int],
                utf8_len(line@) <= u32::MAX,
                literals_view(out@) == before + line_literals(line@, i as int, k as int),
            decreases 4 - k,
        {
            push_line_literals(&mut out, line.as_str(), i as u32, k);
            let ghost m = regex_captures(color_patterns()[k as int], line@).map_values(
                |c: (int, int, Seq<Option<Seq<char>>>)| (i as int, c.0, c.1, c.2),
            );
            assert(line_literals(line@, i as int, k + 1) == line_literals(line@, i as int, k as int) + m);
            assert(before + line_literals(line@, i as int, k + 1) =~= before + line_literals(line@, i as int, k as int) + m);
            k = k + 1;
        }
        assert(ls.take(i + 1).drop_last() =~= ls.take(i as int));
        assert(ls.take(i + 1).last() == ls[i as int]);
        i = i + 1;
    }
    assert(ls.take(i as int) =~= ls);
    out
}

} // verus!
