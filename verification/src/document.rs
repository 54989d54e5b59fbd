//! An open text document: its text, version and the byte offsets at which
//! its lines start, with the conversion from editor positions (lines and
//! UTF-16 columns) to byte offsets, and edits.
use vstd::prelude::*;
use crate::diagnostics::TextRange;
use crate::shader_symbols::bytes;
use crate::text::{char_len_utf8, char_utf8_len, chars_to_string, lemma_utf8_len_push, lemma_utf8_len_sub, str_to_chars, utf8_len, utf8_len_below_max};

verus! {

broadcast use vstd::string::group_string_axioms;

/// The character indices at which the lines of `c` start: 0, and each index
/// after a line feed.
pub open spec fn line_starts(c: Seq<char>) -> Seq<int>
    decreases c.len(),
{
    if c.len() == 0 {
        seq![0]
    } else if c.last() == '\n' {
        line_starts(c.drop_last()).push(c.len() as int)
    } else {
        line_starts(c.drop_last())
    }
}

/// The byte offsets at which the lines of `c` start.
pub open spec fn line_offsets_of(c: Seq<char>) -> Seq<int> {
    line_starts(c).map_values(|i: int| bytes(c, i))
}

/// The number of UTF-16 code units of a character.
pub open spec fn utf16_len(ch: char) -> int {
    if ch as u32 >= 0x10000 { 2 } else { 1 }
}

/// Walking a line from character `i` (before `e`) with `count` UTF-16 units
/// behind: the index where the column `target` is reached, or a line break
/// or the line's end comes.
pub open spec fn column_walk(c: Seq<char>, i: int, e: int, count: int, target: int) -> int
    decreases e - i,
{
    if i >= e || count >= target || c[i] == '\n' || c[i] == '\r' {
        i
    } else {
        column_walk(c, i + 1, e, count + utf16_len(c[i]), target)
    }
}

/// The character index of a position: the end for a line past the last;
/// else the walk along its line.
pub open spec fn position_index(c: Seq<char>, line: int, character: int) -> int {
    let starts = line_starts(c);
    if line >= starts.len() {
        c.len() as int
    } else {
        let e = if line + 1 < starts.len() { starts[line + 1] } else { c.len() as int };
        column_walk(c, starts[line], e, 0, character)
    }
}

/// A walk along a line ends between its start and the line's end.
proof fn lemma_column_walk_bounds(c: Seq<char>, i: int, e: int, count: int, target: int)
    requires
        0 <= i,
        e <= c.len(),
    ensures
        i <= column_walk(c, i, e, count, target),
        column_walk(c, i, e, count, target) <= e || column_walk(c, i, e, count, target) == i,
    decreases e - i,
{
    if !(i >= e || count >= target || c[i] == '\n' || c[i] == '\r') {
        lemma_column_walk_bounds(c, i + 1, e, count + utf16_len(c[i]), target);
    }
}

/// A position's character index lies within the text.
pub proof fn lemma_position_index_bounds(c: Seq<char>, line: int, character: int)
    requires
        0 <= line,
    ensures
        0 <= position_index(c, line, character) <= c.len(),
{
    lemma_line_starts_bounds(c);
    let starts = line_starts(c);
    if line < starts.len() {
        let e = if line + 1 < starts.len() { starts[line + 1] } else { c.len() as int };
        lemma_column_walk_bounds(c, starts[line], e, 0, character);
    }
}

/// The byte offset of a position (what `position_to_offset` returns).
pub open spec fn position_offset(c: Seq<char>, line: int, character: int) -> int {
    bytes(c, position_index(c, line, character))
}

/// The text after replacing the characters between two positions (or the
/// whole text, without a range) with `new_text`.
pub open spec fn edited_text(c: Seq<char>, range: Option<TextRange>, new_text: Seq<char>) -> Seq<char> {
    match range {
        Some(r) => {
            let s = position_index(c, r.start.line as int, r.start.character as int);
            let e = position_index(c, r.end.line as int, r.end.character as int);
            c.take(s) + new_text + c.skip(e)
        },
        None => new_text,
    }
}

/// The lines an edit touches: those of its range, or all for a whole
/// replacement.
pub open spec fn edited_lines(range: Option<TextRange>) -> (u32, u32) {
    match range {
        Some(r) => (r.start.line, r.end.line),
        None => (0, u32::MAX),
    }
}

/// An open document.
#[derive(Debug, Clone)]
pub struct Document {
    pub text: String,
    pub version: i32,
    /// The byte offset at which each line starts.
    pub line_offsets: Vec<usize>,
}

proof fn lemma_line_starts_bounds(c: Seq<char>)
    ensures
        line_starts(c).len() >= 1,
        line_starts(c)[0] == 0,
        forall|k: int| 0 <= k < line_starts(c).len() ==> 0 <= #[trigger] line_starts(c)[k] <= c.len(),
        forall|a: int, b: int| 0 <= a < b < line_starts(c).len() ==> #[trigger] line_starts(c)[a] < #[trigger] line_starts(c)[b],
    decreases c.len(),
{
    if c.len() > 0 {
        lemma_line_starts_bounds(c.drop_last());
    }
}

impl Document {
    /// The line offsets are those of the text, and the text's bytes can be
    /// counted.
    pub open spec fn wf(&self) -> bool {
        &&& self.line_offsets@.map_values(|o: usize| o as int) == line_offsets_of(self.text@)
        &&& utf8_len(self.text@) < usize::MAX
    }

    pub fn new(text: String, version: i32) -> (r: Self)
        requires
            utf8_len(text@) < usize::MAX,
        ensures
            r.wf(),
            r.text@ == text@,
            r.version == version,
    {
        let line_offsets = compute_line_offsets(text.as_str());
        Document { text, version, line_offsets }
    }

    fn recompute_offsets(&mut self)
        requires
            utf8_len(old(self).text@) < usize::MAX,
        ensures
            final(self).wf(),
            final(self).text == old(self).text,
            final(self).version == old(self).version,
    {
        self.line_offsets = compute_line_offsets(self.text.as_str());
    }

    /// The byte offset of a line and UTF-16 column: the text's length for a
    /// line past the last; otherwise the column is counted from the line's
    /// start and stops at a line break or the line's end.
    pub fn position_to_offset(&self, line: u32, character: u32) -> (r: usize)
        requires
            self.wf(),
        ensures
            r == position_offset(self.text@, line as int, character as int),
    {
        let c = str_to_chars(self.text.as_str());
        let k = self.position_index_of(c.as_slice(), line, character);
        bytes_to(c.as_slice(), k)
    }

    pub(crate) fn position_index_of(&self, c: &[char], line: u32, character: u32) -> (r: usize)
        requires
            self.wf(),
            c@ == self.text@,
        ensures
            r == position_index(c@, line as int, character as int),
            r <= c@.len(),
    {
        let starts = line_start_indices(c);
        proof {
            lemma_line_starts_bounds(c@);
        }
        let line = line as usize;
        proof {
            crate::text::lemma_utf8_len_ge(c@);
            assert(starts@.map_values(|i: usize| i as int).len() == starts@.len());
        }
        if line >= starts.len() {
            return c.len();
        }
        let s = starts[line];
        assert(s as int == line_starts(c@)[line as int]) by {
            assert(starts@.map_values(|i: usize| i as int)[line as int] == starts@[line as int] as int);
        }
        let e = if line + 1 < starts.len() {
            let e1 = starts[line + 1];
            assert(e1 as int == line_starts(c@)[line + 1]) by {
                assert(starts@.map_values(|i: usize| i as int)[line + 1] == starts@[line + 1] as int);
            }
            e1
        } else {
            c.len()
        };
        let mut i = s;
        let mut count: u64 = 0;
        while i < e && count < character as u64 && c[i] != '\n' && c[i] != '\r'
            invariant
                s <= i <= e <= c@.len(),
                count <= 2 * (i - s),
                c@.len() < usize::MAX,
                column_walk(c@, s as int, e as int, 0, character as int) == column_walk(c@, i as int, e as int, count as int, character as int),
            decreases e - i,
        {
            let u: u64 = if c[i] as u32 >= 0x10000 { 2 } else { 1 };
            count = count + u;
            i = i + 1;
        }
        i
    }

    /// Applies an edit: replaces the text between two positions, or the
    /// whole text, and takes the new version. Returns the lines the edit
    /// touched.
    pub fn apply_edit(&mut self, range: Option<TextRange>, new_text: String, version: i32) -> (r: (u32, u32))
        requires
            old(self).wf(),
            2 * utf8_len(old(self).text@) + utf8_len(new_text@) < usize::MAX,
        ensures
            final(self).wf(),
            final(self).text@ == edited_text(old(self).text@, range, new_text@),
            final(self).version == version,
            r == edited_lines(range),
    {
        let c = str_to_chars(self.text.as_str());
        proof {
            crate::text::lemma_utf8_len_ge(c@);
        }
        let lines = match range {
            Some(rg) => {
                let s = self.position_index_of(c.as_slice(), rg.start.line, rg.start.character);
                let e = self.position_index_of(c.as_slice(), rg.end.line, rg.end.character);
                let mut v: Vec<char> = Vec::new();
                let mut i: usize = 0;
                while i < s
                    invariant
                        i <= s <= c@.len(),
                        v@ == c@.take(i as int),
                    decreases s - i,
                {
                    v.push(c[i]);
                    assert(c@.take(i + 1) =~= c@.take(i as int).push(c@[i as int]));
                    i = i + 1;
                }
                let n = str_to_chars(new_text.as_str());
                let mut j: usize = 0;
                let ghost pre = v@;
                while j < n.len()
                    invariant
                        j <= n@.len(),
                        v@ == pre + n@.take(j as int),
                    decreases n.len() - j,
                {
                    v.push(n[j]);
                    assert(pre + n@.take(j + 1) =~= (pre + n@.take(j as int)).push(n@[j as int]));
                    j = j + 1;
                }
                assert(n@.take(n@.len() as int) =~= n@);
                let mut k = e;
                let ghost mid = v@;
                while k < c.len()
                    invariant
                        e <= k <= c@.len(),
                        v@ == mid + c@.subrange(e as int, k as int),
                    decreases c.len() - k,
                {
                    v.push(c[k]);
                    assert(mid + c@.subrange(e as int, k + 1) =~= (mid + c@.subrange(e as int, k as int)).push(c@[k as int]));
                    k = k + 1;
                }
                assert(c@.subrange(e as int, c@.len() as int) =~= c@.skip(e as int));
                proof {
                    lemma_utf8_len_sub(c@, 0, s as int);
                    lemma_utf8_len_sub(c@, 0, e as int);
                    lemma_utf8_len_sub(c@, e as int, c@.len() as int);
                    assert(c@.take(c@.len() as int) =~= c@);
                    crate::text::lemma_utf8_len_concat(c@.take(s as int), n@);
                    crate::text::lemma_utf8_len_concat(c@.take(s as int) + n@, c@.skip(e as int));
                    assert(c@.subrange(0, s as int) =~= c@.take(s as int));
                    assert(c@.subrange(e as int, c@.len() as int) =~= c@.skip(e as int));
                }
                self.text = chars_to_string(v.as_slice());
                (rg.start.line, rg.end.line)
            },
            None => {
                self.text = new_text;
                (0u32, u32::MAX)
            },
        };
        self.version = version;
        self.recompute_offsets();
        lines
    }
}

/// The number of UTF-8 bytes before character index `k`.
pub(crate) fn bytes_to(c: &[char], k: usize) -> (r: usize)
    requires
        k <= c@.len(),
        utf8_len(c@) < usize::MAX,
    ensures
        r == bytes(c@, k as int),
{
    proof {
        lemma_utf8_len_sub(c@, 0, k as int);
        assert(c@.take(c@.len() as int) =~= c@);
        lemma_utf8_len_sub(c@, k as int, c@.len() as int);
    }
    let mut n: usize = 0;
    let mut i: usize = 0;
    assert(c@.take(0) =~= Seq::<char>::empty());
    while i < k
        invariant
            i <= k <= c@.len(),
            n == bytes(c@, i as int),
            bytes(c@, k as int) < usize::MAX,
        decreases k - i,
    {
        proof {
            assert(c@.take(i + 1) =~= c@.take(i as int).push(c@[i as int]));
            lemma_utf8_len_push(c@.take(i as int), c@[i as int]);
            lemma_utf8_len_sub(c@, i + 1, k as int);
        }
        n = n + char_len_utf8(c[i]);
        i = i + 1;
    }
    n
}

/// The character indices at which the lines start.
fn line_start_indices(c: &[char]) -> (r: Vec<usize>)
    ensures
        r@.map_values(|i: usize| i as int) == line_starts(c@),
{
    let mut r: Vec<usize> = Vec::new();
    r.push(0);
    let mut i: usize = 0;
    assert(c@.take(0) =~= Seq::<char>::empty());
    assert(r@.map_values(|x: usize| x as int) =~= seq![0int]);
    while i < c.len()
        invariant
            i <= c@.len(),
            r@.map_values(|x: usize| x as int) == line_starts(c@.take(i as int)),
        decreases c.len() - i,
    {
        assert(c@.take(i + 1).drop_last() =~= c@.take(i as int));
        let ghost prev = r@;
        if c[i] == '\n' {
            r.push(i + 1);
            assert(r@.map_values(|x: usize| x as int) =~= prev.map_values(|x: usize| x as int).push(i + 1));
        }
        i = i + 1;
    }
    assert(c@.take(i as int) =~= c@);
    r
}

/// Whether the text's UTF-8 length stays below `usize::MAX`.
pub fn text_fits(text: &str) -> (r: bool)
    ensures
        r == (utf8_len(text@) < usize::MAX),
{
    let c = str_to_chars(text);
    utf8_len_below_max(c.as_slice())
}

/// The byte offsets at which the lines of a text start: 0, and the offset
/// after each line feed.
pub fn compute_line_offsets(text: &str) -> (r: Vec<usize>)
    requires
        utf8_len(text@) < usize::MAX,
    ensures
        r@.map_values(|o: usize| o as int) == line_offsets_of(text@),
{
    let c = str_to_chars(text);
    let mut offsets: Vec<usize> = Vec::new();
    offsets.push(0);
    let mut offset: usize = 0;
    let mut i: usize = 0;
    assert(c@.take(0) =~= Seq::<char>::empty());
    assert(offsets@.map_values(|o: usize| o as int) =~= line_offsets_of(c@.take(0)));
    while i < c.len()
        invariant
            i <= c@.len(),
            c@ == text@,
            utf8_len(c@) < usize::MAX,
            offset == bytes(c@, i as int),
            offsets@.map_values(|o: usize| o as int) == line_offsets_of(c@.take(i as int)),
        decreases c.len() - i,
    {
        proof {
            assert(c@.take(i + 1) =~= c@.take(i as int).push(c@[i as int]));
            lemma_utf8_len_push(c@.take(i as int), c@[i as int]);
            lemma_utf8_len_sub(c@, i + 1, c@.len() as int);
            assert(c@.take(c@.len() as int) =~= c@);
            lemma_utf8_len_sub(c@, 0, i + 1);
            assert(c@.subrange(0, i + 1) =~= c@.take(i + 1));
        }
        offset = offset + char_len_utf8(c[i]);
        let ghost prev = offsets@;
        let ghost pre = c@.take(i as int);
        let ghost cur = c@.take(i + 1);
        proof {
            lemma_offsets_push(pre, c@[i as int]);
        }
        if c[i] == '\n' {
            offsets.push(offset);
            assert(offsets@.map_values(|o: usize| o as int) =~= prev.map_values(|o: usize| o as int).push(offset as int));
        }
        i = i + 1;
    }
    assert(c@.take(i as int) =~= c@);
    offsets
}

/// Line offsets after one more character: those before, and the new end
/// when the character is a line feed.
proof fn lemma_offsets_push(pre: Seq<char>, ch: char)
    ensures
        line_offsets_of(pre.push(ch)) == if ch == '\n' {
            line_offsets_of(pre).push(utf8_len(pre.push(ch)) as int)
        } else {
            line_offsets_of(pre)
        },
{
    let cur = pre.push(ch);
    assert(cur.drop_last() =~= pre);
    lemma_line_starts_bounds(pre);
    let s0 = line_starts(pre);
    assert forall|k: int| 0 <= k < s0.len() implies bytes(cur, #[trigger] s0[k]) == bytes(pre, s0[k]) by {
        assert(cur.take(s0[k]) =~= pre.take(s0[k]));
    }
    if ch == '\n' {
        assert(cur.take(cur.len() as int) =~= cur);
        assert(line_offsets_of(cur) =~= line_offsets_of(pre).push(utf8_len(cur) as int));
    } else {
        assert(line_offsets_of(cur) =~= line_offsets_of(pre));
    }
}

/// A position's byte offset never passes the end of the text.
pub proof fn lemma_position_offset_within(c: Seq<char>, line: int, character: int)
    requires
        0 <= line,
    ensures
        0 <= position_offset(c, line, character) <= utf8_len(c),
{
    lemma_position_index_bounds(c, line, character);
    let k = position_index(c, line, character);
    lemma_utf8_len_sub(c, 0, k);
    assert(c.subrange(0, k) =~= c.take(k));
}

} // verus!
