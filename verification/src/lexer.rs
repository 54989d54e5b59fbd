//! The lexer for `.mat` files. At the top level it reads block keywords; in a
//! `material` block it reads JSON-like tokens; in a shader block it gathers
//! raw GLSL text up to the closing brace.
use vstd::prelude::*;
use crate::lexer_spec::{
    at_boundary, blank, gap_end, gap_ok, gap_start, line_col, lemma_line_col_bounds, lemma_norm_len,
    lemma_unit_end, norm_range, token_at, token_shape, tokens_cover, unit_end, is_ident,
    is_block_keyword, is_bool_word, is_null_word, is_number_char, lemma_cover_ordered, positions_ordered,
    lemma_cover_blank, lemma_cover_push, skip_ws, ident_end, number_end, line_comment_end,
    block_comment_end, comment_lexeme, string_end, shader_scan, material_lexeme, material_word,
    lex_step, lex_from, scan_start, lexeme_token, tokens_from, ScanMode, ScanState, Lexeme, lemma_lex_unfold, one_based, lemma_cover_one_based,
};
use crate::text::{
    ascii_alpha, ascii_digit, ident_char, is_ascii_alpha, is_ascii_digit, is_ident_char, is_whitespace,
    is_ws, str_to_chars, string_push, chars_eq_str, chars_to_string,
};
use crate::token::{Token, TokenType};

verus! {

broadcast use vstd::string::group_string_axioms;

#[derive(Debug, Clone, Copy, PartialEq, Eq, Structural)]
enum LexerMode {
    TopLevel,
    MaterialBlock { brace_depth: usize },
    ShaderBlock { brace_depth: usize },
}

/// The lexer over one input text.
pub struct Lexer {
    chars: Vec<char>,
    pos: usize,
    line: u32,
    column: u32,
    mode: LexerMode,
    pending_block_name: Option<Vec<char>>,
}

impl Lexer {
    /// The text being lexed.
    pub closed spec fn input(&self) -> Seq<char> {
        self.chars@
    }

    /// How much of the text has been read.
    pub closed spec fn position(&self) -> int {
        self.pos as int
    }

    /// Where the lexer stands: how far it has read, its mode, and the block
    /// keyword the next `{` at the top level opens.
    pub closed spec fn scan_state(&self) -> ScanState {
        ScanState {
            pos: self.pos as int,
            mode: match self.mode {
                LexerMode::TopLevel => ScanMode::Top,
                LexerMode::MaterialBlock { brace_depth } => ScanMode::Material(brace_depth as nat),
                LexerMode::ShaderBlock { brace_depth } => ScanMode::Shader(brace_depth as nat),
            },
            pending: match self.pending_block_name {
                Some(v) => Some(v@),
                None => None,
            },
        }
    }

    /// The lexer's internal invariant.
    pub closed spec fn wf(&self) -> bool {
        &&& self.chars@.len() < u32::MAX
        &&& self.pos <= self.chars@.len()
        &&& at_boundary(self.chars@, self.pos as int)
        &&& (self.line as int, self.column as int) == line_col(self.chars@, self.pos as int)
        &&& match self.mode {
            LexerMode::TopLevel => true,
            LexerMode::MaterialBlock { brace_depth } => 1 <= brace_depth <= self.pos,
            LexerMode::ShaderBlock { brace_depth } => 1 <= brace_depth <= self.pos,
        }
    }

    pub fn new(input: &str) -> (r: Self)
        requires
            input@.len() < u32::MAX,
        ensures
            r.wf(),
            r.input() == input@,
            r.position() == 0,
            r.scan_state() == scan_start(),
    {
        let chars = str_to_chars(input);
        Lexer { chars, pos: 0, line: 1, column: 1, mode: LexerMode::TopLevel, pending_block_name: None }
    }

    fn peek(&self) -> (r: Option<char>)
        ensures
            self.pos < self.chars@.len() ==> r == Some(self.chars@[self.pos as int]),
            self.pos >= self.chars@.len() ==> r is None,
    {
        if self.pos < self.chars.len() {
            Some(self.chars[self.pos])
        } else {
            None
        }
    }

    /// Reads one character; a carriage return swallows the line feed after it.
    fn advance(&mut self) -> (r: Option<char>)
        requires
            old(self).wf(),
        ensures
            final(self).wf(),
            final(self).chars@ == old(self).chars@,
            final(self).mode == old(self).mode,
            final(self).pending_block_name == old(self).pending_block_name,
            old(self).pos < old(self).chars@.len() ==> {
                &&& r == Some(old(self).chars@[old(self).pos as int])
                &&& final(self).pos == unit_end(old(self).chars@, old(self).pos as int)
                &&& forall|a: int| 0 <= a <= old(self).pos ==> #[trigger] norm_range(old(self).chars@, a, final(self).pos as int)
                    == norm_range(old(self).chars@, a, old(self).pos as int).push(old(self).chars@[old(self).pos as int])
            },
            old(self).pos >= old(self).chars@.len() ==> r is None && final(self).pos == old(self).pos,
    {
        if self.pos >= self.chars.len() {
            return None;
        }
        let ch = self.chars[self.pos];
        proof {
            lemma_unit_end(self.chars@, self.pos as int);
            lemma_line_col_bounds(self.chars@, self.pos as int);
        }
        if ch == '\n' {
            self.line = self.line + 1;
            self.column = 1;
            self.pos = self.pos + 1;
        } else if ch == '\r' {
            if self.pos + 1 < self.chars.len() && self.chars[self.pos + 1] == '\n' {
                self.pos = self.pos + 2;
            } else {
                self.pos = self.pos + 1;
            }
            self.line = self.line + 1;
            self.column = 1;
        } else {
            self.column = self.column + 1;
            self.pos = self.pos + 1;
        }
        Some(ch)
    }

    /// Reads a `//` or `/* */` comment, or a lone `/`.
    fn read_comment(&mut self) -> (t: Token)
        requires
            old(self).wf(),
            old(self).pos < old(self).chars@.len(),
            old(self).chars@[old(self).pos as int] == '/',
        ensures
            final(self).wf(),
            final(self).chars@ == old(self).chars@,
            final(self).mode == old(self).mode,
            final(self).pending_block_name == old(self).pending_block_name,
            token_at(old(self).chars@, t, old(self).pos as int, final(self).pos as int),
            token_shape(t),
            t.token_type == TokenType::Comment || t.token_type == TokenType::Unknown,
            (t.token_type, final(self).pos as int) == comment_lexeme(old(self).chars@, old(self).pos as int),
            (t.line as int, t.column as int) == line_col(old(self).chars@, old(self).pos as int),
    {
        let ghost s = self.chars@;
        let ghost start = self.pos as int;
        let line = self.line;
        let col = self.column;
        self.advance();
        proof { reveal_strlit("/"); }
        match self.peek() {
            Some('/') => {
                let ghost mid = self.pos as int;
                self.advance();
                let mut comment = String::new();
                string_push(&mut comment, '/');
                string_push(&mut comment, '/');
                proof {
                    assert(norm_range(s, start, mid) == norm_range(s, start, start).push('/'));
                }
                while self.pos < self.chars.len() && self.chars[self.pos] != '\n'
                    invariant
                        self.wf(),
                        self.chars@ == s,
                        s == old(self).chars@,
                        start == old(self).pos,
                        self.mode == old(self).mode,
                        self.pending_block_name == old(self).pending_block_name,
                        start < self.pos,
                        comment@ == norm_range(s, start, self.pos as int),
                        comment@.len() >= 2 && comment@[0] == '/' && comment@[1] == '/',
                        line_comment_end(s, self.pos as int) == line_comment_end(s, start + 2),
                        (line as int, col as int) == line_col(s, start),
                    decreases s.len() - self.pos,
                {
                    let ch = self.chars[self.pos];
                    let ghost p = self.pos as int;
                    string_push(&mut comment, ch);
                    self.advance();
                }
                Token { token_type: TokenType::Comment, value: comment, line, column: col }
            },
            Some('*') => {
                let ghost mid = self.pos as int;
                self.advance();
                let mut comment = String::new();
                string_push(&mut comment, '/');
                string_push(&mut comment, '*');
                let mut done = false;
                while !done && self.pos < self.chars.len()
                    invariant
                        self.wf(),
                        self.chars@ == s,
                        s == old(self).chars@,
                        start == old(self).pos,
                        self.mode == old(self).mode,
                        self.pending_block_name == old(self).pending_block_name,
                        start < self.pos,
                        comment@ == norm_range(s, start, self.pos as int),
                        comment@.len() >= 2 && comment@[0] == '/' && comment@[1] == '*',
                        !done ==> block_comment_end(s, self.pos as int) == block_comment_end(s, start + 2),
                        done ==> self.pos == block_comment_end(s, start + 2),
                        (line as int, col as int) == line_col(s, start),
                    decreases s.len() - self.pos,
                {
                    let ch = self.chars[self.pos];
                    let ghost p = self.pos as int;
                    string_push(&mut comment, ch);
                    self.advance();
                    proof { lemma_unit_end(s, p); }
                    if ch == '*' && self.pos < self.chars.len() && self.chars[self.pos] == '/' {
                        let ghost q = self.pos as int;
                        string_push(&mut comment, '/');
                        self.advance();
                        proof { lemma_unit_end(s, q); }
                        done = true;
                    }
                }
                Token { token_type: TokenType::Comment, value: comment, line, column: col }
            },
            _ => {
                let t = Token::new(TokenType::Unknown, "/", line, col);
                proof {
                    assert(norm_range(s, start, self.pos as int) == norm_range(s, start, start).push('/'));
                    assert(t.value@ =~= norm_range(s, start, self.pos as int));
                }
                t
            },
        }
    }
    /// Reads a string literal with its quotes; a backslash keeps the next
    /// character whatever it is.
    fn read_string(&mut self) -> (t: Token)
        requires
            old(self).wf(),
            old(self).pos < old(self).chars@.len(),
            old(self).chars@[old(self).pos as int] == '"',
        ensures
            final(self).wf(),
            final(self).chars@ == old(self).chars@,
            final(self).mode == old(self).mode,
            final(self).pending_block_name == old(self).pending_block_name,
            token_at(old(self).chars@, t, old(self).pos as int, final(self).pos as int),
            token_shape(t),
            t.token_type == TokenType::StringLiteral,
            final(self).pos == string_end(old(self).chars@, old(self).pos + 1),
            (t.line as int, t.column as int) == line_col(old(self).chars@, old(self).pos as int),
    {
        let ghost s = self.chars@;
        let ghost start = self.pos as int;
        let line = self.line;
        let col = self.column;
        self.advance();
        let mut v = String::new();
        string_push(&mut v, '"');
        let mut done = false;
        while !done && self.pos < self.chars.len()
            invariant
                self.wf(),
                self.chars@ == s,
                s == old(self).chars@,
                start == old(self).pos,
                self.mode == old(self).mode,
                self.pending_block_name == old(self).pending_block_name,
                start < self.pos,
                v@ == norm_range(s, start, self.pos as int),
                v@.len() >= 1 && v@[0] == '"',
                !done ==> string_end(s, self.pos as int) == string_end(s, start + 1),
                done ==> self.pos == string_end(s, start + 1),
                (line as int, col as int) == line_col(s, start),
            decreases s.len() - self.pos,
        {
            let ch = self.chars[self.pos];
            if ch == '"' {
                string_push(&mut v, '"');
                self.advance();
                done = true;
            } else if ch == '\\' {
                string_push(&mut v, '\\');
                self.advance();
                if self.pos < self.chars.len() {
                    let e = self.chars[self.pos];
                    string_push(&mut v, e);
                    self.advance();
                }
            } else {
                string_push(&mut v, ch);
                self.advance();
            }
        }
        Token { token_type: TokenType::StringLiteral, value: v, line, column: col }
    }

    /// Reads a number: digits and the characters `.`, `-`, `e`, `E`, `+`.
    fn read_number(&mut self) -> (t: Token)
        requires
            old(self).wf(),
            old(self).pos < old(self).chars@.len(),
            is_ascii_digit(old(self).chars@[old(self).pos as int]) || old(self).chars@[old(self).pos as int] == '-',
        ensures
            final(self).wf(),
            final(self).chars@ == old(self).chars@,
            final(self).mode == old(self).mode,
            final(self).pending_block_name == old(self).pending_block_name,
            token_at(old(self).chars@, t, old(self).pos as int, final(self).pos as int),
            token_shape(t),
            t.token_type == TokenType::NumberLiteral,
            final(self).pos == number_end(old(self).chars@, old(self).pos as int),
            (t.line as int, t.column as int) == line_col(old(self).chars@, old(self).pos as int),
    {
        let ghost s = self.chars@;
        let ghost start = self.pos as int;
        let line = self.line;
        let col = self.column;
        let mut v = String::new();
        while self.pos < self.chars.len()
            && (ascii_digit(self.chars[self.pos]) || self.chars[self.pos] == '.' || self.chars[self.pos] == '-'
            || self.chars[self.pos] == 'e' || self.chars[self.pos] == 'E' || self.chars[self.pos] == '+')
            invariant
                self.wf(),
                self.chars@ == s,
                s == old(self).chars@,
                start == old(self).pos,
                self.mode == old(self).mode,
                self.pending_block_name == old(self).pending_block_name,
                start <= self.pos,
                v@ == norm_range(s, start, self.pos as int),
                forall|k: int| 0 <= k < v@.len() ==> is_number_char(#[trigger] v@[k]),
                number_end(s, self.pos as int) == number_end(s, start),
                (line as int, col as int) == line_col(s, start),
            decreases s.len() - self.pos,
        {
            let ch = self.chars[self.pos];
            string_push(&mut v, ch);
            self.advance();
        }
        proof { lemma_norm_len(s, start, self.pos as int); }
        Token { token_type: TokenType::NumberLiteral, value: v, line, column: col }
    }

    /// Reads ASCII letters, digits and underscores.
    fn read_identifier_raw(&mut self) -> (ident: Vec<char>)
        requires
            old(self).wf(),
        ensures
            final(self).wf(),
            final(self).chars@ == old(self).chars@,
            final(self).mode == old(self).mode,
            final(self).pending_block_name == old(self).pending_block_name,
            old(self).pos <= final(self).pos,
            ident@ == norm_range(old(self).chars@, old(self).pos as int, final(self).pos as int),
            forall|k: int| 0 <= k < ident@.len() ==> is_ident_char(#[trigger] ident@[k]),
            final(self).pos < final(self).chars@.len() ==> !is_ident_char(final(self).chars@[final(self).pos as int]),
            final(self).pos == ident_end(old(self).chars@, old(self).pos as int),
    {
        let ghost s = self.chars@;
        let ghost start = self.pos as int;
        let mut v: Vec<char> = Vec::new();
        while self.pos < self.chars.len() && ident_char(self.chars[self.pos])
            invariant
                self.wf(),
                self.chars@ == s,
                s == old(self).chars@,
                start == old(self).pos,
                self.mode == old(self).mode,
                self.pending_block_name == old(self).pending_block_name,
                start <= self.pos,
                v@ == norm_range(s, start, self.pos as int),
                forall|k: int| 0 <= k < v@.len() ==> is_ident_char(#[trigger] v@[k]),
                ident_end(s, self.pos as int) == ident_end(s, start),
            decreases s.len() - self.pos,
        {
            let ch = self.chars[self.pos];
            v.push(ch);
            self.advance();
        }
        v
    }

    /// A one-character token for the character at the current position.
    fn single(&mut self, tt: TokenType) -> (t: Token)
        requires
            old(self).wf(),
            old(self).pos < old(self).chars@.len(),
        ensures
            final(self).wf(),
            final(self).chars@ == old(self).chars@,
            final(self).mode == old(self).mode,
            final(self).pending_block_name == old(self).pending_block_name,
            token_at(old(self).chars@, t, old(self).pos as int, final(self).pos as int),
            t.token_type == tt,
            t.value@ == seq![old(self).chars@[old(self).pos as int]],
            final(self).pos == unit_end(old(self).chars@, old(self).pos as int),
            (t.line as int, t.column as int) == line_col(old(self).chars@, old(self).pos as int),
    {
        let ghost s = self.chars@;
        let ghost start = self.pos as int;
        let line = self.line;
        let col = self.column;
        let ch = self.chars[self.pos];
        let mut v = String::new();
        string_push(&mut v, ch);
        self.advance();
        proof {
            assert(norm_range(s, start, self.pos as int) == norm_range(s, start, start).push(ch));
            assert(v@ =~= norm_range(s, start, self.pos as int));
        }
        Token { token_type: tt, value: v, line, column: col }
    }

    /// The next token of a material block, after any white space; `None` at
    /// the end of the text.
    fn tokenize_material_token(&mut self) -> (r: (Option<Token>, Ghost<int>))
        requires
            old(self).wf(),
        ensures
            final(self).wf(),
            final(self).chars@ == old(self).chars@,
            final(self).mode == old(self).mode,
            final(self).pending_block_name == old(self).pending_block_name,
            old(self).pos <= r.1@,
            blank(old(self).chars@, old(self).pos as int, r.1@),
            match r.0 {
                Some(t) => token_at(old(self).chars@, t, r.1@, final(self).pos as int) && token_shape(t),
                None => final(self).pos == final(self).chars@.len() && r.1@ == final(self).pos,
            },
            r.1@ == skip_ws(old(self).chars@, old(self).pos as int),
            match r.0 {
                Some(t) => {
                    &&& r.1@ < old(self).chars@.len()
                    &&& (t.token_type, final(self).pos as int) == material_lexeme(old(self).chars@, r.1@)
                    &&& (t.line as int, t.column as int) == line_col(old(self).chars@, r.1@)
                },
                None => r.1@ >= old(self).chars@.len(),
            },
    {
        let ghost s = self.chars@;
        while self.pos < self.chars.len() && is_whitespace(self.chars[self.pos])
            invariant
                self.wf(),
                self.chars@ == s,
                s == old(self).chars@,
                self.mode == old(self).mode,
                self.pending_block_name == old(self).pending_block_name,
                old(self).pos <= self.pos,
                blank(s, old(self).pos as int, self.pos as int),
                skip_ws(s, self.pos as int) == skip_ws(s, old(self).pos as int),
            decreases s.len() - self.pos,
        {
            let ghost p = self.pos as int;
            self.advance();
            proof {
                assert forall|k: int| old(self).pos <= k < self.pos implies is_ws(#[trigger] s[k]) by {
                    if k > p {
                        assert(k == p + 1 && s[p] == '\r');
                    }
                }
            }
        }
        let ghost start = self.pos as int;
        if self.pos >= self.chars.len() {
            return (None, Ghost(start));
        }
        let ch = self.chars[self.pos];
        if ch == '/' {
            let t = self.read_comment();
            return (Some(t), Ghost(start));
        }
        if ch == '{' {
            let t = self.single(TokenType::LCurly);
            return (Some(t), Ghost(start));
        }
        if ch == '}' {
            let t = self.single(TokenType::RCurly);
            return (Some(t), Ghost(start));
        }
        if ch == '[' {
            let t = self.single(TokenType::LBracket);
            return (Some(t), Ghost(start));
        }
        if ch == ']' {
            let t = self.single(TokenType::RBracket);
            return (Some(t), Ghost(start));
        }
        if ch == ':' {
            let t = self.single(TokenType::Colon);
            return (Some(t), Ghost(start));
        }
        if ch == ',' {
            let t = self.single(TokenType::Comma);
            return (Some(t), Ghost(start));
        }
        if ch == '"' {
            let t = self.read_string();
            return (Some(t), Ghost(start));
        }
        if ascii_digit(ch) || ch == '-' {
            let t = self.read_number();
            return (Some(t), Ghost(start));
        }
        if ascii_alpha(ch) || ch == '_' {
            let line = self.line;
            let col = self.column;
            let ident = self.read_identifier_raw();
            proof {
                lemma_norm_len(s, start, self.pos as int);
                reveal_strlit("true");
                reveal_strlit("TRUE");
                reveal_strlit("false");
                reveal_strlit("FALSE");
                reveal_strlit("null");
                reveal_strlit("NULL");
            }
            let tt = if chars_eq_str(ident.as_slice(), "true") || chars_eq_str(ident.as_slice(), "TRUE")
                || chars_eq_str(ident.as_slice(), "false") || chars_eq_str(ident.as_slice(), "FALSE") {
                TokenType::BoolLiteral
            } else if chars_eq_str(ident.as_slice(), "null") || chars_eq_str(ident.as_slice(), "NULL") {
                TokenType::NullLiteral
            } else {
                TokenType::Identifier
            };
            let value = chars_to_string(ident.as_slice());
            let t = Token { token_type: tt, value, line, column: col };
            proof {
                assert("true"@ =~= seq!['t', 'r', 'u', 'e']);
                assert("TRUE"@ =~= seq!['T', 'R', 'U', 'E']);
                assert("false"@ =~= seq!['f', 'a', 'l', 's', 'e']);
                assert("FALSE"@ =~= seq!['F', 'A', 'L', 'S', 'E']);
                assert("null"@ =~= seq!['n', 'u', 'l', 'l']);
                assert("NULL"@ =~= seq!['N', 'U', 'L', 'L']);
            }
            return (Some(t), Ghost(start));
        }
        let t = self.single(TokenType::Unknown);
        (Some(t), Ghost(start))
    }

    /// The next piece of a shader block at nesting depth `brace_depth`: the
    /// GLSL text up to the block's closing brace (not included), or that
    /// closing brace itself. Also gives the depth after it.
    fn tokenize_shader_token(&mut self, brace_depth: usize) -> (r: Option<(Token, usize)>)
        requires
            old(self).wf(),
            1 <= brace_depth <= old(self).pos,
        ensures
            final(self).wf(),
            final(self).chars@ == old(self).chars@,
            final(self).mode == old(self).mode,
            final(self).pending_block_name == old(self).pending_block_name,
            match r {
                Some((t, d)) => {
                    &&& token_at(old(self).chars@, t, old(self).pos as int, final(self).pos as int)
                    &&& token_shape(t)
                    &&& (t.token_type == TokenType::RCurly && d == 0) || (t.token_type == TokenType::GlslCode && 1 <= d <= final(self).pos)
                },
                None => final(self).pos == final(self).chars@.len() && final(self).pos == old(self).pos,
            },
            ({
                let (e, d2) = shader_scan(old(self).chars@, old(self).pos as int, brace_depth as int);
                match r {
                    Some((t, d)) => if e == old(self).pos {
                        &&& t.token_type == TokenType::RCurly
                        &&& d == 0
                        &&& final(self).pos == old(self).pos + 1
                        &&& (t.line as int, t.column as int) == line_col(old(self).chars@, final(self).pos as int)
                    } else {
                        &&& t.token_type == TokenType::GlslCode
                        &&& d == d2
                        &&& final(self).pos == e
                        &&& (t.line as int, t.column as int) == line_col(old(self).chars@, old(self).pos as int)
                    },
                    None => e == old(self).pos,
                }
            }),
    {
        let ghost s = self.chars@;
        let ghost start = self.pos as int;
        let start_line = self.line;
        let start_col = self.column;
        let start_pos = self.pos;
        let mut depth = brace_depth;
        let mut code = String::new();
        while self.pos < self.chars.len()
            invariant
                self.wf(),
                self.chars@ == s,
                s == old(self).chars@,
                start == old(self).pos,
                self.mode == old(self).mode,
                self.pending_block_name == old(self).pending_block_name,
                start <= self.pos,
                start_pos == start,
                at_boundary(s, start),
                (start_line as int, start_col as int) == line_col(s, start),
                1 <= depth <= self.pos,
                code@ == norm_range(s, start, self.pos as int),
                shader_scan(s, self.pos as int, depth as int) == shader_scan(s, start, brace_depth as int),
            decreases s.len() - self.pos,
        {
            let ch = self.chars[self.pos];
            if ch == '{' {
                self.advance();
                depth = depth + 1;
                string_push(&mut code, '{');
            } else if ch == '}' {
                if depth == 1 {
                    if self.pos != start_pos {
                        proof { lemma_norm_len(s, start, self.pos as int); }
                        let t = Token { token_type: TokenType::GlslCode, value: code, line: start_line, column: start_col };
                        return Some((t, depth));
                    } else {
                        assert(norm_range(s, start, self.pos as int).len() == 0);
                        proof {
                            if start < self.pos {
                                lemma_norm_len(s, start, self.pos as int);
                            }
                        }
                        self.advance();
                        proof {
                            reveal_strlit("}");
                            assert(norm_range(s, start, self.pos as int) == norm_range(s, start, start).push('}'));
                        }
                        let t = Token::new(TokenType::RCurly, "}", self.line, self.column);
                        proof { assert(t.value@ =~= norm_range(s, start, self.pos as int)); }
                        return Some((t, 0));
                    }
                } else {
                    self.advance();
                    depth = depth - 1;
                    string_push(&mut code, '}');
                }
            } else {
                string_push(&mut code, ch);
                self.advance();
            }
        }
        if self.pos != start_pos {
            proof { lemma_norm_len(s, start, self.pos as int); }
            let t = Token { token_type: TokenType::GlslCode, value: code, line: start_line, column: start_col };
            Some((t, depth))
        } else {
            proof {
                if start < self.pos {
                    lemma_norm_len(s, start, self.pos as int);
                }
            }
            None
        }
    }
    /// Splits the rest of the text into tokens: exactly the tokens that
    /// `lex_from` reads from where the lexer stands. They also cover the text
    /// with only white space between them, and their places never go back.
    pub fn tokenize(&mut self) -> (r: Vec<Token>)
        requires
            old(self).wf(),
        ensures
            final(self).wf(),
            final(self).input() == old(self).input(),
            final(self).position() == old(self).input().len(),
            exists|spans: Seq<(int, int)>| tokens_cover(old(self).input(), old(self).position(), old(self).input().len() as int, r@, spans),
            forall|i: int| 0 <= i < r@.len() ==> token_shape(#[trigger] r@[i]),
            positions_ordered(r@),
            one_based(r@),
            tokens_from(old(self).input(), old(self).scan_state(), r@),
    {
        let ghost s = self.chars@;
        let ghost from = self.pos as int;
        let ghost st0 = self.scan_state();
        let mut tokens: Vec<Token> = Vec::new();
        let ghost mut spans: Seq<(int, int)> = seq![];
        let ghost mut done: Seq<Lexeme> = seq![];
        proof {
            assert(lex_from(s, st0) =~= done + lex_from(s, self.scan_state()));
        }
        proof {
            assert(gap_ok(s, spans, from, from, 0));
        }
        while self.pos < self.chars.len()
            invariant
                self.wf(),
                self.chars@ == s,
                s == old(self).chars@,
                from == old(self).pos,
                from <= self.pos,
                tokens_cover(s, from, self.pos as int, tokens@, spans),
                forall|i: int| 0 <= i < tokens@.len() ==> token_shape(#[trigger] tokens@[i]),
                st0 == old(self).scan_state(),
                done.len() == tokens@.len(),
                forall|i: int| 0 <= i < tokens@.len() ==> lexeme_token(s, done[i], #[trigger] tokens@[i]),
                lex_from(s, st0) == done + lex_from(s, self.scan_state()),
            decreases s.len() - self.pos,
        {
            let ghost p = self.pos as int;
            let ghost old_tokens = tokens@;
            let ghost cur = self.scan_state();
            let ch = self.chars[self.pos];
            let ghost mut step: Option<Lexeme> = None;
            match self.mode {
                LexerMode::TopLevel => {
                    if is_whitespace(ch) {
                        self.advance();
                        proof {
                            assert forall|k: int| p <= k < self.pos implies is_ws(#[trigger] s[k]) by {
                                if k > p {
                                    assert(k == p + 1 && s[p] == '\r');
                                }
                            }
                            lemma_cover_blank(s, from, p, tokens@, spans, self.pos as int);
                        }
                    } else if ch == '/' {
                        let t = self.read_comment();
                        tokens.push(t);
                        proof {
                            lemma_cover_push(s, from, p, old_tokens, spans, t, p, self.pos as int);
                            spans = spans.push((p, self.pos as int));
                            step = Some(Lexeme { kind: t.token_type, start: p, end: self.pos as int, at_end: false });
                        }
                    } else if ascii_alpha(ch) || ch == '_' {
                        let line = self.line;
                        let col = self.column;
                        let ident = self.read_identifier_raw();
                        proof {
                            lemma_norm_len(s, p, self.pos as int);
                        }
                        let is_block = is_toplevel_block_keyword(ident.as_slice());
                        let value = chars_to_string(ident.as_slice());
                        let tt = if is_block {
                            self.pending_block_name = Some(ident);
                            TokenType::BlockKeyword
                        } else {
                            TokenType::Identifier
                        };
                        let t = Token { token_type: tt, value, line, column: col };
                        tokens.push(t);
                        proof {
                            lemma_cover_push(s, from, p, old_tokens, spans, t, p, self.pos as int);
                            spans = spans.push((p, self.pos as int));
                            step = Some(Lexeme { kind: tt, start: p, end: self.pos as int, at_end: false });
                        }
                    } else if ch == '{' {
                        let t = self.single(TokenType::LCurly);
                        tokens.push(t);
                        proof {
                            reveal_strlit("material");
                            assert("material"@ =~= material_word());
                            lemma_cover_push(s, from, p, old_tokens, spans, t, p, self.pos as int);
                            spans = spans.push((p, self.pos as int));
                            step = Some(Lexeme { kind: TokenType::LCurly, start: p, end: p + 1, at_end: false });
                        }
                        match self.pending_block_name.take() {
                            Some(name) => {
                                if chars_eq_str(name.as_slice(), "material") {
                                    self.mode = LexerMode::MaterialBlock { brace_depth: 1 };
                                } else {
                                    self.mode = LexerMode::ShaderBlock { brace_depth: 1 };
                                }
                            },
                            None => {},
                        }
                    } else {
                        let t = self.single(TokenType::Unknown);
                        tokens.push(t);
                        proof {
                            lemma_cover_push(s, from, p, old_tokens, spans, t, p, self.pos as int);
                            spans = spans.push((p, self.pos as int));
                            step = Some(Lexeme { kind: TokenType::Unknown, start: p, end: self.pos as int, at_end: false });
                        }
                    }
                },
                LexerMode::MaterialBlock { brace_depth } => {
                    let depth = brace_depth;
                    let (tok, Ghost(start)) = self.tokenize_material_token();
                    match tok {
                        Some(t) => {
                            if t.token_type == TokenType::LCurly {
                                self.mode = LexerMode::MaterialBlock { brace_depth: depth + 1 };
                            } else if t.token_type == TokenType::RCurly {
                                if depth == 1 {
                                    self.mode = LexerMode::TopLevel;
                                } else {
                                    self.mode = LexerMode::MaterialBlock { brace_depth: depth - 1 };
                                }
                            }
                            tokens.push(t);
                            proof {
                                lemma_cover_push(s, from, p, old_tokens, spans, t, start, self.pos as int);
                                spans = spans.push((start, self.pos as int));
                                step = Some(Lexeme { kind: t.token_type, start: start, end: self.pos as int, at_end: false });
                            }
                        },
                        None => {
                            proof {
                                lemma_cover_blank(s, from, p, tokens@, spans, self.pos as int);
                            }
                        },
                    }
                },
                LexerMode::ShaderBlock { brace_depth } => {
                    let depth = brace_depth;
                    match self.tokenize_shader_token(depth) {
                        Some((t, new_depth)) => {
                            if t.token_type == TokenType::RCurly && new_depth == 0 {
                                self.mode = LexerMode::TopLevel;
                            } else {
                                self.mode = LexerMode::ShaderBlock { brace_depth: new_depth };
                            }
                            tokens.push(t);
                            proof {
                                lemma_cover_push(s, from, p, old_tokens, spans, t, p, self.pos as int);
                                spans = spans.push((p, self.pos as int));
                                step = Some(Lexeme {
                                    kind: t.token_type,
                                    start: p,
                                    end: self.pos as int,
                                    at_end: t.token_type == TokenType::RCurly,
                                });
                            }
                        },
                        None => {},
                    }
                },
            }
            proof {
                assert(lex_step(s, cur) == (step, self.scan_state()));
                lemma_lex_unfold(s, cur);
                match step {
                    Some(x) => {
                        assert(lex_from(s, st0) =~= done.push(x) + lex_from(s, self.scan_state()));
                        done = done.push(x);
                    },
                    None => {
                        assert(lex_from(s, st0) =~= done + lex_from(s, self.scan_state()));
                    },
                }
            }
        }
        proof {
            assert(tokens_cover(s, from, s.len() as int, tokens@, spans));
            assert(tokens_cover(old(self).input(), old(self).position(), old(self).input().len() as int, tokens@, spans));
            lemma_cover_ordered(s, from, s.len() as int, tokens@, spans);
            lemma_cover_one_based(s, from, s.len() as int, tokens@, spans);
        }
        tokens
    }
}

/// Whether a word opens a top-level block.
fn is_toplevel_block_keyword(ident: &[char]) -> (r: bool)
    ensures
        r == is_block_keyword(ident@),
{
    proof {
        reveal_strlit("material");
        reveal_strlit("vertex");
        reveal_strlit("fragment");
        reveal_strlit("compute");
        reveal_strlit("tool");
        assert("material"@ =~= seq!['m', 'a', 't', 'e', 'r', 'i', 'a', 'l']);
        assert("vertex"@ =~= seq!['v', 'e', 'r', 't', 'e', 'x']);
        assert("fragment"@ =~= seq!['f', 'r', 'a', 'g', 'm', 'e', 'n', 't']);
        assert("compute"@ =~= seq!['c', 'o', 'm', 'p', 'u', 't', 'e']);
        assert("tool"@ =~= seq!['t', 'o', 'o', 'l']);
    }
    chars_eq_str(ident, "material") || chars_eq_str(ident, "vertex") || chars_eq_str(ident, "fragment")
        || chars_eq_str(ident, "compute") || chars_eq_str(ident, "tool")
}

} // verus!
