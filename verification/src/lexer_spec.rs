//! The meaning of a token stream: which characters of the input each token
//! stands for, and where it starts.
use vstd::prelude::*;
use crate::text::{is_ws, is_ident_char, is_ascii_alpha, is_ascii_digit};
use crate::token::{Token, TokenType};

verus! {

/// Index just past the character that starts at `p`; a carriage return
/// followed by a line feed is read as one character.
pub open spec fn unit_end(s: Seq<char>, p: int) -> int {
    if s[p] == '\r' && p + 1 < s.len() && s[p + 1] == '\n' {
        p + 2
    } else {
        p + 1
    }
}

/// `p` does not split a carriage return from the line feed after it.
pub open spec fn at_boundary(s: Seq<char>, p: int) -> bool {
    p <= 0 || p >= s.len() || !(s[p - 1] == '\r' && s[p] == '\n')
}

/// The text of `s[a..b]` as a token holds it: a line feed that follows a
/// carriage return inside the range is dropped.
pub open spec fn norm_range(s: Seq<char>, a: int, b: int) -> Seq<char>
    decreases b - a,
{
    if b <= a {
        seq![]
    } else if s[b - 1] == '\n' && b - 2 >= a && s[b - 2] == '\r' {
        norm_range(s, a, b - 1)
    } else {
        norm_range(s, a, b - 1).push(s[b - 1])
    }
}

/// The 1-based (line, column) of index `p`: a line feed, a carriage return,
/// or the two together end a line.
pub open spec fn line_col(s: Seq<char>, p: int) -> (int, int)
    decreases p,
{
    if p <= 0 {
        (1, 1)
    } else {
        let prev = line_col(s, p - 1);
        if s[p - 1] == '\n' && p >= 2 && s[p - 2] == '\r' {
            prev
        } else if s[p - 1] == '\n' || s[p - 1] == '\r' {
            (prev.0 + 1, 1)
        } else {
            (prev.0, prev.1 + 1)
        }
    }
}

/// `(l1, c1)` does not come after `(l2, c2)`.
pub open spec fn pos_le(a: (int, int), b: (int, int)) -> bool {
    a.0 < b.0 || (a.0 == b.0 && a.1 <= b.1)
}

/// Every character of `s[a..b]` is white space.
pub open spec fn blank(s: Seq<char>, a: int, b: int) -> bool {
    forall|k: int| a <= k < b ==> is_ws(#[trigger] s[k])
}

/// The token stands for `s[a..b]` and is placed where that text starts (a
/// closing brace of a shader block is placed just after it).
pub open spec fn token_at(s: Seq<char>, t: Token, a: int, b: int) -> bool {
    &&& 0 <= a < b <= s.len()
    &&& t.value@ == norm_range(s, a, b)
    &&& ((t.line as int, t.column as int) == line_col(s, a)
        || (t.token_type == TokenType::RCurly && (t.line as int, t.column as int) == line_col(s, b)))
}

/// Where the white space before token `i` starts.
pub open spec fn gap_start(spans: Seq<(int, int)>, from: int, i: int) -> int {
    if i == 0 { from } else { spans[i - 1].1 }
}

/// Where the white space before token `i` ends (the end of the text for
/// `i == spans.len()`).
pub open spec fn gap_end(spans: Seq<(int, int)>, to: int, i: int) -> int {
    if i == spans.len() { to } else { spans[i].0 }
}

pub open spec fn gap_ok(s: Seq<char>, spans: Seq<(int, int)>, from: int, to: int, i: int) -> bool {
    gap_start(spans, from, i) <= gap_end(spans, to, i)
        && blank(s, gap_start(spans, from, i), gap_end(spans, to, i))
}

/// `toks` stand for the text `s[from..to]` in order: token `i` stands for
/// `s[spans[i].0..spans[i].1]`, and only white space lies between tokens.
pub open spec fn tokens_cover(s: Seq<char>, from: int, to: int, toks: Seq<Token>, spans: Seq<(int, int)>) -> bool {
    &&& spans.len() == toks.len()
    &&& 0 <= from <= to <= s.len()
    &&& forall|i: int| 0 <= i < toks.len() ==> token_at(s, #[trigger] toks[i], spans[i].0, spans[i].1)
    &&& forall|i: int| 0 <= i <= toks.len() ==> #[trigger] gap_ok(s, spans, from, to, i)
}

/// What the lexer is reading: the top level, a `material` block, or a
/// shader block, the latter two with their brace depth.
pub enum ScanMode {
    Top,
    Material(nat),
    Shader(nat),
}

/// Where the lexer stands: the index it has read up to, its mode, and the
/// block keyword that the next `{` at the top level opens.
pub struct ScanState {
    pub pos: int,
    pub mode: ScanMode,
    pub pending: Option<Seq<char>>,
}

/// One token as the lexer reads it: its class and the range `s[start..end]`
/// that it stands for. It is placed at `end` when `at_end` holds, else at
/// `start`.
pub struct Lexeme {
    pub kind: TokenType,
    pub start: int,
    pub end: int,
    pub at_end: bool,
}

/// Where the white space that starts at `p` ends.
pub open spec fn skip_ws(s: Seq<char>, p: int) -> int
    decreases s.len() - p,
{
    if 0 <= p < s.len() && is_ws(s[p]) {
        skip_ws(s, unit_end(s, p))
    } else {
        p
    }
}

/// Where the run of identifier characters that starts at `p` ends.
pub open spec fn ident_end(s: Seq<char>, p: int) -> int
    decreases s.len() - p,
{
    if 0 <= p < s.len() && is_ident_char(s[p]) {
        ident_end(s, p + 1)
    } else {
        p
    }
}

/// Where the run of number characters that starts at `p` ends.
pub open spec fn number_end(s: Seq<char>, p: int) -> int
    decreases s.len() - p,
{
    if 0 <= p < s.len() && is_number_char(s[p]) {
        number_end(s, p + 1)
    } else {
        p
    }
}

/// Where a `//` comment whose text goes on at `p` ends: before the next line
/// feed that is not part of a carriage return and line feed pair.
pub open spec fn line_comment_end(s: Seq<char>, p: int) -> int
    decreases s.len() - p,
{
    if 0 <= p < s.len() && s[p] != '\n' {
        line_comment_end(s, unit_end(s, p))
    } else {
        p
    }
}

/// Where a `/*` comment whose text goes on at `p` ends: just after the
/// first `*/`, or at the end of the text.
pub open spec fn block_comment_end(s: Seq<char>, p: int) -> int
    decreases s.len() - p,
{
    if 0 <= p < s.len() {
        let q = unit_end(s, p);
        if s[p] == '*' && q < s.len() && s[q] == '/' {
            unit_end(s, q)
        } else {
            block_comment_end(s, q)
        }
    } else {
        p
    }
}

/// The class and end of the token that starts with the `/` at `p`: a line
/// comment, a block comment, or a lone `/`.
pub open spec fn comment_lexeme(s: Seq<char>, p: int) -> (TokenType, int) {
    let q = p + 1;
    if q < s.len() && s[q] == '/' {
        (TokenType::Comment, line_comment_end(s, q + 1))
    } else if q < s.len() && s[q] == '*' {
        (TokenType::Comment, block_comment_end(s, q + 1))
    } else {
        (TokenType::Unknown, q)
    }
}

/// Where a string literal whose text goes on at `p` ends: just after the
/// closing quote, or at the end of the text. A backslash keeps the next
/// character whatever it is.
pub open spec fn string_end(s: Seq<char>, p: int) -> int
    decreases s.len() - p,
{
    if 0 <= p < s.len() {
        if s[p] == '"' {
            p + 1
        } else if s[p] == '\\' {
            if p + 1 < s.len() {
                string_end(s, unit_end(s, p + 1))
            } else {
                p + 1
            }
        } else {
            string_end(s, unit_end(s, p))
        }
    } else {
        p
    }
}

/// Scans shader text from `p` at brace depth `d`: stops at the `}` that
/// closes the block (giving its index and depth 1) or at the end of the text
/// (giving the length and the depth there).
pub open spec fn shader_scan(s: Seq<char>, p: int, d: int) -> (int, int)
    decreases s.len() - p,
{
    if 0 <= p < s.len() {
        if s[p] == '{' {
            shader_scan(s, p + 1, d + 1)
        } else if s[p] == '}' {
            if d == 1 {
                (p, 1)
            } else {
                shader_scan(s, p + 1, d - 1)
            }
        } else {
            shader_scan(s, unit_end(s, p), d)
        }
    } else {
        (p, d)
    }
}

/// The class of a word in a `material` block.
pub open spec fn word_class(w: Seq<char>) -> TokenType {
    if is_bool_word(w) {
        TokenType::BoolLiteral
    } else if is_null_word(w) {
        TokenType::NullLiteral
    } else {
        TokenType::Identifier
    }
}

/// The class and end of the token of a `material` block that starts at `q`.
pub open spec fn material_lexeme(s: Seq<char>, q: int) -> (TokenType, int) {
    let c = s[q];
    if c == '/' {
        comment_lexeme(s, q)
    } else if c == '{' {
        (TokenType::LCurly, q + 1)
    } else if c == '}' {
        (TokenType::RCurly, q + 1)
    } else if c == '[' {
        (TokenType::LBracket, q + 1)
    } else if c == ']' {
        (TokenType::RBracket, q + 1)
    } else if c == ':' {
        (TokenType::Colon, q + 1)
    } else if c == ',' {
        (TokenType::Comma, q + 1)
    } else if c == '"' {
        (TokenType::StringLiteral, string_end(s, q + 1))
    } else if is_ascii_digit(c) || c == '-' {
        (TokenType::NumberLiteral, number_end(s, q))
    } else if is_ascii_alpha(c) || c == '_' {
        let e = ident_end(s, q);
        (word_class(norm_range(s, q, e)), e)
    } else {
        (TokenType::Unknown, unit_end(s, q))
    }
}

pub open spec fn material_word() -> Seq<char> {
    seq!['m', 'a', 't', 'e', 'r', 'i', 'a', 'l']
}

/// One step of the lexer from `st` (with `st.pos` inside the text): the
/// token it reads, if any, and where it then stands.
pub open spec fn lex_step(s: Seq<char>, st: ScanState) -> (Option<Lexeme>, ScanState) {
    let p = st.pos;
    match st.mode {
        ScanMode::Top => {
            let c = s[p];
            if is_ws(c) {
                (None, ScanState { pos: unit_end(s, p), mode: ScanMode::Top, pending: st.pending })
            } else if c == '/' {
                let (k, e) = comment_lexeme(s, p);
                (
                    Some(Lexeme { kind: k, start: p, end: e, at_end: false }),
                    ScanState { pos: e, mode: ScanMode::Top, pending: st.pending },
                )
            } else if is_ascii_alpha(c) || c == '_' {
                let e = ident_end(s, p);
                let w = norm_range(s, p, e);
                if is_block_keyword(w) {
                    (
                        Some(Lexeme { kind: TokenType::BlockKeyword, start: p, end: e, at_end: false }),
                        ScanState { pos: e, mode: ScanMode::Top, pending: Some(w) },
                    )
                } else {
                    (
                        Some(Lexeme { kind: TokenType::Identifier, start: p, end: e, at_end: false }),
                        ScanState { pos: e, mode: ScanMode::Top, pending: st.pending },
                    )
                }
            } else if c == '{' {
                let m = match st.pending {
                    Some(w) => if w == material_word() { ScanMode::Material(1) } else { ScanMode::Shader(1) },
                    None => ScanMode::Top,
                };
                (
                    Some(Lexeme { kind: TokenType::LCurly, start: p, end: p + 1, at_end: false }),
                    ScanState { pos: p + 1, mode: m, pending: None },
                )
            } else {
                (
                    Some(Lexeme { kind: TokenType::Unknown, start: p, end: unit_end(s, p), at_end: false }),
                    ScanState { pos: unit_end(s, p), mode: ScanMode::Top, pending: st.pending },
                )
            }
        },
        ScanMode::Material(d) => {
            let q = skip_ws(s, p);
            if q >= s.len() {
                (None, ScanState { pos: q, mode: ScanMode::Material(d), pending: st.pending })
            } else {
                let (k, e) = material_lexeme(s, q);
                let m = if k == TokenType::LCurly {
                    ScanMode::Material(d + 1)
                } else if k == TokenType::RCurly {
                    if d == 1 { ScanMode::Top } else { ScanMode::Material((d - 1) as nat) }
                } else {
                    ScanMode::Material(d)
                };
                (
                    Some(Lexeme { kind: k, start: q, end: e, at_end: false }),
                    ScanState { pos: e, mode: m, pending: st.pending },
                )
            }
        },
        ScanMode::Shader(d) => {
            let (e, d2) = shader_scan(s, p, d as int);
            if e == p {
                (
                    Some(Lexeme { kind: TokenType::RCurly, start: p, end: p + 1, at_end: true }),
                    ScanState { pos: p + 1, mode: ScanMode::Top, pending: st.pending },
                )
            } else {
                (
                    Some(Lexeme { kind: TokenType::GlslCode, start: p, end: e, at_end: false }),
                    ScanState { pos: e, mode: ScanMode::Shader(d2 as nat), pending: st.pending },
                )
            }
        },
    }
}

/// The tokens the lexer reads from `st` to the end of the text.
pub open spec fn lex_from(s: Seq<char>, st: ScanState) -> Seq<Lexeme>
    decreases s.len() - st.pos,
{
    if 0 <= st.pos < s.len() {
        let (t, st2) = lex_step(s, st);
        if st.pos < st2.pos <= s.len() {
            match t {
                Some(x) => seq![x] + lex_from(s, st2),
                None => lex_from(s, st2),
            }
        } else {
            seq![]
        }
    } else {
        seq![]
    }
}

/// One step of the lexer that moves forward: the tokens from `st` are the
/// token of that step, if any, followed by the tokens from where it stands
/// after it.
pub proof fn lemma_lex_unfold(s: Seq<char>, st: ScanState)
    requires
        0 <= st.pos < s.len(),
        st.pos < lex_step(s, st).1.pos <= s.len(),
    ensures
        lex_from(s, st) == (match lex_step(s, st).0 {
            Some(x) => seq![x],
            None => Seq::<Lexeme>::empty(),
        }) + lex_from(s, lex_step(s, st).1),
{
    match lex_step(s, st).0 {
        Some(x) => {},
        None => {
            assert(Seq::<Lexeme>::empty() + lex_from(s, lex_step(s, st).1) =~= lex_from(s, lex_step(s, st).1));
        },
    }
}

/// Where the lexer starts: at the top level, at the first character.
pub open spec fn scan_start() -> ScanState {
    ScanState { pos: 0, mode: ScanMode::Top, pending: None }
}

/// The tokens the lexer reads from the whole of `s`.
pub open spec fn lex(s: Seq<char>) -> Seq<Lexeme> {
    lex_from(s, scan_start())
}

/// `t` is the token `x` of `s`: its class, its text and its place.
pub open spec fn lexeme_token(s: Seq<char>, x: Lexeme, t: Token) -> bool {
    &&& t.token_type == x.kind
    &&& t.value@ == norm_range(s, x.start, x.end)
    &&& (t.line as int, t.column as int) == line_col(s, if x.at_end { x.end } else { x.start })
}

/// `toks` are the tokens the lexer reads from `st` on.
pub open spec fn tokens_from(s: Seq<char>, st: ScanState, toks: Seq<Token>) -> bool {
    let l = lex_from(s, st);
    toks.len() == l.len() && forall|i: int| 0 <= i < toks.len() ==> lexeme_token(s, l[i], #[trigger] toks[i])
}

/// `toks` are the tokens of the whole of `s`.
pub open spec fn lexes(s: Seq<char>, toks: Seq<Token>) -> bool {
    tokens_from(s, scan_start(), toks)
}

/// The words that open a top-level block.
pub open spec fn is_block_keyword(w: Seq<char>) -> bool {
    w == seq!['m', 'a', 't', 'e', 'r', 'i', 'a', 'l'] || w == seq!['v', 'e', 'r', 't', 'e', 'x']
        || w == seq!['f', 'r', 'a', 'g', 'm', 'e', 'n', 't']
        || w == seq!['c', 'o', 'm', 'p', 'u', 't', 'e'] || w == seq!['t', 'o', 'o', 'l']
}

pub open spec fn is_bool_word(w: Seq<char>) -> bool {
    w == seq!['t', 'r', 'u', 'e'] || w == seq!['T', 'R', 'U', 'E'] || w == seq!['f', 'a', 'l', 's', 'e']
        || w == seq!['F', 'A', 'L', 'S', 'E']
}

pub open spec fn is_null_word(w: Seq<char>) -> bool {
    w == seq!['n', 'u', 'l', 'l'] || w == seq!['N', 'U', 'L', 'L']
}

/// An identifier: an ASCII letter or underscore, then ASCII letters, digits
/// and underscores.
pub open spec fn is_ident(w: Seq<char>) -> bool {
    w.len() > 0 && (is_ascii_alpha(w[0]) || w[0] == '_') && forall|k: int| 0 <= k < w.len() ==> is_ident_char(#[trigger] w[k])
}

pub open spec fn is_number_char(c: char) -> bool {
    is_ascii_digit(c) || c == '.' || c == '-' || c == 'e' || c == 'E' || c == '+'
}

/// What the text of a token of each class looks like.
pub open spec fn token_shape(t: Token) -> bool {
    let v = t.value@;
    match t.token_type {
        TokenType::LCurly => v == seq!['{'],
        TokenType::RCurly => v == seq!['}'],
        TokenType::LBracket => v == seq!['['],
        TokenType::RBracket => v == seq![']'],
        TokenType::Colon => v == seq![':'],
        TokenType::Comma => v == seq![','],
        TokenType::BlockKeyword => is_block_keyword(v),
        TokenType::BoolLiteral => is_bool_word(v),
        TokenType::NullLiteral => is_null_word(v),
        TokenType::Identifier => is_ident(v),
        TokenType::NumberLiteral => v.len() > 0 && (is_ascii_digit(v[0]) || v[0] == '-')
            && forall|k: int| 0 <= k < v.len() ==> is_number_char(#[trigger] v[k]),
        TokenType::StringLiteral => v.len() > 0 && v[0] == '"',
        TokenType::Comment => v.len() >= 2 && v[0] == '/' && (v[1] == '/' || v[1] == '*'),
        TokenType::GlslCode => v.len() > 0,
        TokenType::Unknown => v.len() == 1,
    }
}

/// Token positions never go backwards.
pub open spec fn positions_ordered(toks: Seq<Token>) -> bool {
    forall|i: int, j: int| 0 <= i < j < toks.len() ==> pos_le(
        (#[trigger] toks[i].line as int, toks[i].column as int),
        (#[trigger] toks[j].line as int, toks[j].column as int),
    )
}

pub proof fn lemma_unit_end(s: Seq<char>, p: int)
    requires
        0 <= p < s.len(),
        at_boundary(s, p),
    ensures
        p < unit_end(s, p) <= s.len(),
        at_boundary(s, unit_end(s, p)),
        line_col(s, unit_end(s, p)) == (if s[p] == '\n' || s[p] == '\r' {
            (line_col(s, p).0 + 1, 1)
        } else {
            (line_col(s, p).0, line_col(s, p).1 + 1)
        }),
        forall|a: int| 0 <= a <= p ==> #[trigger] norm_range(s, a, unit_end(s, p)) == norm_range(s, a, p).push(s[p]),
{
    let q = unit_end(s, p);
    assert forall|a: int| 0 <= a <= p implies #[trigger] norm_range(s, a, unit_end(s, p)) == norm_range(s, a, p).push(s[p]) by {
        if q == p + 2 {
            assert(norm_range(s, a, p + 2) == norm_range(s, a, p + 1));
        }
    }
    if q == p + 2 {
        assert(line_col(s, p + 2) == line_col(s, p + 1));
    }
}

pub proof fn lemma_line_col_bounds(s: Seq<char>, p: int)
    requires
        0 <= p <= s.len(),
    ensures
        1 <= line_col(s, p).0 <= p + 1,
        1 <= line_col(s, p).1 <= p + 1,
    decreases p,
{
    if p > 0 {
        lemma_line_col_bounds(s, p - 1);
    }
}

pub proof fn lemma_line_col_mono(s: Seq<char>, a: int, b: int)
    requires
        0 <= a <= b <= s.len(),
    ensures
        pos_le(line_col(s, a), line_col(s, b)),
    decreases b - a,
{
    if a < b {
        lemma_line_col_mono(s, a, b - 1);
    }
}

pub proof fn lemma_norm_len(s: Seq<char>, a: int, b: int)
    requires
        a < b,
        0 <= a,
        b <= s.len(),
        at_boundary(s, a),
    ensures
        norm_range(s, a, b).len() > 0,
        norm_range(s, a, b)[0] == s[a],
    decreases b - a,
{
    if b - 1 > a {
        lemma_norm_len(s, a, b - 1);
    } else {
        assert(norm_range(s, a, a) == Seq::<char>::empty());
    }
}

/// Every token is placed at a line and a column of at least 1.
pub open spec fn one_based(toks: Seq<Token>) -> bool {
    forall|i: int| 0 <= i < toks.len() ==> (#[trigger] toks[i]).line >= 1 && toks[i].column >= 1
}

/// Tokens that cover a text are placed at lines and columns from 1.
pub proof fn lemma_cover_one_based(s: Seq<char>, from: int, to: int, toks: Seq<Token>, spans: Seq<(int, int)>)
    requires
        tokens_cover(s, from, to, toks, spans),
    ensures
        one_based(toks),
{
    assert forall|i: int| 0 <= i < toks.len() implies (#[trigger] toks[i]).line >= 1 && toks[i].column >= 1 by {
        assert(token_at(s, toks[i], spans[i].0, spans[i].1));
        lemma_line_col_bounds(s, spans[i].0);
        lemma_line_col_bounds(s, spans[i].1);
    }
}

/// Consecutive tokens that cover a text are placed in order.
pub proof fn lemma_cover_ordered(s: Seq<char>, from: int, to: int, toks: Seq<Token>, spans: Seq<(int, int)>)
    requires
        tokens_cover(s, from, to, toks, spans),
    ensures
        positions_ordered(toks),
{
    assert forall|i: int, j: int| 0 <= i < j < toks.len() implies pos_le(
        (#[trigger] toks[i].line as int, toks[i].column as int),
        (#[trigger] toks[j].line as int, toks[j].column as int),
    ) by {
        lemma_spans_ordered(s, from, to, toks, spans, i, j);
        assert(token_at(s, toks[i], spans[i].0, spans[i].1));
        assert(token_at(s, toks[j], spans[j].0, spans[j].1));
        lemma_line_col_mono(s, spans[i].0, spans[i].1);
        lemma_line_col_mono(s, spans[i].1, spans[j].0);
        lemma_line_col_mono(s, spans[j].0, spans[j].1);
        lemma_line_col_mono(s, spans[i].0, spans[j].0);
    }
}

pub proof fn lemma_spans_ordered(s: Seq<char>, from: int, to: int, toks: Seq<Token>, spans: Seq<(int, int)>, i: int, j: int)
    requires
        tokens_cover(s, from, to, toks, spans),
        0 <= i < j < toks.len(),
    ensures
        spans[i].1 <= spans[j].0,
    decreases j - i,
{
    assert(gap_ok(s, spans, from, to, j));
    if j > i + 1 {
        lemma_spans_ordered(s, from, to, toks, spans, i, j - 1);
        assert(token_at(s, toks[j - 1], spans[j - 1].0, spans[j - 1].1));
    }
}

/// Extending a covered text by white space keeps it covered.
pub proof fn lemma_cover_blank(s: Seq<char>, from: int, to: int, toks: Seq<Token>, spans: Seq<(int, int)>, to2: int)
    requires
        tokens_cover(s, from, to, toks, spans),
        to <= to2 <= s.len(),
        blank(s, to, to2),
    ensures
        tokens_cover(s, from, to2, toks, spans),
{
    assert forall|i: int| 0 <= i <= toks.len() implies #[trigger] gap_ok(s, spans, from, to2, i) by {
        assert(gap_ok(s, spans, from, to, i));
        if i == toks.len() {
            assert forall|k: int| gap_start(spans, from, i) <= k < to2 implies is_ws(#[trigger] s[k]) by {
                if k >= to {
                    assert(blank(s, to, to2));
                }
            }
        }
    }
}

/// Appending a token that stands for `s[a..b]`, after white space, keeps
/// the text covered.
pub proof fn lemma_cover_push(s: Seq<char>, from: int, to: int, toks: Seq<Token>, spans: Seq<(int, int)>, t: Token, a: int, b: int)
    requires
        tokens_cover(s, from, to, toks, spans),
        to <= a,
        blank(s, to, a),
        token_at(s, t, a, b),
    ensures
        tokens_cover(s, from, b, toks.push(t), spans.push((a, b))),
{
    lemma_cover_blank(s, from, to, toks, spans, a);
    let toks2 = toks.push(t);
    let spans2 = spans.push((a, b));
    assert forall|i: int| 0 <= i < toks2.len() implies token_at(s, #[trigger] toks2[i], spans2[i].0, spans2[i].1) by {
        if i < toks.len() {
            assert(toks2[i] == toks[i]);
        }
    }
    assert forall|i: int| 0 <= i <= toks2.len() implies #[trigger] gap_ok(s, spans2, from, b, i) by {
        if i < toks.len() {
            assert(gap_ok(s, spans, from, a, i));
            if i > 0 {
                assert(spans2[i - 1] == spans[i - 1]);
            }
            assert(spans2[i] == spans[i]);
        } else if i == toks.len() {
            assert(gap_ok(s, spans, from, a, i));
            if i > 0 {
                assert(spans2[i - 1] == spans[i - 1]);
            }
        } else {
            assert(gap_start(spans2, from, i) == b);
        }
    }
}

} // verus!
