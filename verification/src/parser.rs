//! The parser: from tokens to the syntax tree of a `.mat` file, recovering
//! from errors so that a partial tree is always available.
use vstd::prelude::*;
use crate::diagnostics::{TextPosition, TextRange};
use crate::number::{check_float_literal, eq_ignore_ascii_case, eq_ignore_case, is_float_literal};
use crate::text::{
    str_to_chars, chars_to_string, string_push_str, sub_chars, to_owned_string, str_eq, to_lowercase,
    lowercase_of, utf8_len, utf8_len_u32, utf8_len_below_max, push_str_chars,
};
use crate::token::{Token, TokenType};
use crate::shader_symbols::{ShaderSymbol, SymbolView, symbols_view, code_symbols, lines_ok, extract_symbols, symbols_scan_ok};
use crate::shader_symbols::trim as trim_chars;
use crate::shader_symbols::trim_exec;

verus! {

broadcast use vstd::string::group_string_axioms;

/// A parse error with its place.
#[derive(Debug, Clone, PartialEq)]
pub struct ParseError {
    pub message: String,
    pub range: TextRange,
}

/// A value with the range of text it came from.
#[derive(Debug, Clone, PartialEq)]
pub struct Located<T> {
    pub value: T,
    pub range: TextRange,
}

impl<T> Located<T> {
    pub fn new(value: T, range: TextRange) -> (r: Self)
        ensures
            r.value == value,
            r.range == range,
    {
        Located { value, range }
    }
}

/// A property value. A number keeps the text of its literal, which is a
/// valid `f64` literal.
#[derive(Debug, PartialEq)]
pub enum Value {
    String(String),
    Number(String),
    Bool(bool),
    Array(Vec<Value>),
    Object(Vec<(String, Value)>),
    Identifier(String),
    Null,
}

/// The mathematical form of a value.
pub enum ValueView {
    String(Seq<char>),
    Number(Seq<char>),
    Bool(bool),
    Array(Seq<ValueView>),
    Object(Seq<(Seq<char>, ValueView)>),
    Identifier(Seq<char>),
    Null,
}

pub open spec fn value_view(v: Value) -> ValueView
    decreases v,
{
    match v {
        Value::String(s) => ValueView::String(s@),
        Value::Number(s) => ValueView::Number(s@),
        Value::Bool(b) => ValueView::Bool(b),
        Value::Array(a) => ValueView::Array(values_view(a@)),
        Value::Object(o) => ValueView::Object(entries_view(o@)),
        Value::Identifier(s) => ValueView::Identifier(s@),
        Value::Null => ValueView::Null,
    }
}

pub open spec fn values_view(s: Seq<Value>) -> Seq<ValueView>
    decreases s,
{
    if s.len() == 0 {
        seq![]
    } else {
        values_view(s.drop_last()).push(value_view(s.last()))
    }
}

pub open spec fn entries_view(s: Seq<(String, Value)>) -> Seq<(Seq<char>, ValueView)>
    decreases s,
{
    if s.len() == 0 {
        seq![]
    } else {
        entries_view(s.drop_last()).push((s.last().0@, value_view(s.last().1)))
    }
}

/// A string literal token's text without its quotes, if it has them.
pub open spec fn string_literal_body(v: Seq<char>) -> Option<Seq<char>> {
    if v.len() >= 2 && v[0] == '"' && v[v.len() - 1] == '"' {
        Some(v.subrange(1, v.len() - 1))
    } else {
        None
    }
}

pub open spec fn tok_is(toks: Seq<Token>, p: int, tt: TokenType) -> bool {
    0 <= p < toks.len() && toks[p].token_type == tt
}

/// Reading a value at token `p`, with `last` the last token recorded:
/// the value (if the text there is one), the next position, and the last
/// token recorded after it.
pub open spec fn spec_value(toks: Seq<Token>, p: int, last: Option<Token>) -> (Option<ValueView>, int, Option<Token>)
    decreases toks.len() - p, 0int,
{
    if p < 0 || p >= toks.len() {
        (None, p, last)
    } else {
        let t = toks[p];
        let v = t.value@;
        match t.token_type {
            TokenType::StringLiteral => match string_literal_body(v) {
                Some(b) => (Some(ValueView::String(b)), p + 1, Some(t)),
                None => (None, p + 1, Some(t)),
            },
            TokenType::NumberLiteral => if is_float_literal(v) {
                (Some(ValueView::Number(v)), p + 1, Some(t))
            } else {
                (None, p + 1, Some(t))
            },
            TokenType::BoolLiteral => (Some(ValueView::Bool(eq_ignore_ascii_case(v, seq!['t', 'r', 'u', 'e']))), p + 1, Some(t)),
            TokenType::NullLiteral => (Some(ValueView::Null), p + 1, Some(t)),
            TokenType::Identifier => (Some(ValueView::Identifier(v)), p + 1, Some(t)),
            TokenType::LBracket => {
                let r = spec_array(toks, p + 1, Some(t), seq![]);
                (Some(ValueView::Array(r.0)), r.1, r.2)
            },
            TokenType::LCurly => {
                let r = spec_object(toks, p + 1, Some(t), seq![]);
                (Some(ValueView::Object(r.0)), r.1, r.2)
            },
            _ => (None, p, last),
        }
    }
}

/// Skips a comma if there is one (recording it as the last token).
pub open spec fn spec_skip_comma(toks: Seq<Token>, p: int, last: Option<Token>) -> (int, Option<Token>) {
    if tok_is(toks, p, TokenType::Comma) {
        (p + 1, Some(toks[p]))
    } else {
        (p, last)
    }
}

/// The items of an array from token `p` to its closing bracket, after `acc`.
pub open spec fn spec_array(toks: Seq<Token>, p: int, last: Option<Token>, acc: Seq<ValueView>) -> (Seq<ValueView>, int, Option<Token>)
    decreases toks.len() - p, 1int,
{
    if p < 0 || p >= toks.len() {
        (acc, p, last)
    } else if toks[p].token_type == TokenType::RBracket {
        (acc, p + 1, Some(toks[p]))
    } else {
        let v = spec_value(toks, p, last);
        let step = match v.0 {
            Some(x) => (acc.push(x), v.1, v.2),
            None => if 0 <= v.1 < toks.len() {
                (acc, v.1 + 1, Some(toks[v.1]))
            } else {
                (acc, v.1, v.2)
            },
        };
        let c = spec_skip_comma(toks, step.1, step.2);
        if c.0 <= p || c.0 > toks.len() {
            (step.0, c.0, c.1)
        } else {
            spec_array(toks, c.0, c.1, step.0)
        }
    }
}

/// A key of an object: an identifier, boolean or null token.
pub open spec fn spec_key(toks: Seq<Token>, p: int) -> Option<Seq<char>> {
    if 0 <= p < toks.len() && (toks[p].token_type == TokenType::Identifier || toks[p].token_type
        == TokenType::BoolLiteral || toks[p].token_type == TokenType::NullLiteral) {
        Some(toks[p].value@)
    } else {
        None
    }
}

/// Skips a token of the given class if it comes next.
pub open spec fn spec_expect(toks: Seq<Token>, p: int, tt: TokenType) -> int {
    if tok_is(toks, p, tt) { p + 1 } else { p }
}

/// The entries of an object from token `p` to its closing brace, after `acc`.
pub open spec fn spec_object(toks: Seq<Token>, p: int, last: Option<Token>, acc: Seq<(Seq<char>, ValueView)>) -> (Seq<(Seq<char>, ValueView)>, int, Option<Token>)
    decreases toks.len() - p, 1int,
{
    if p < 0 || p >= toks.len() {
        (acc, p, last)
    } else if toks[p].token_type == TokenType::RCurly {
        (acc, p + 1, Some(toks[p]))
    } else {
        let step = match spec_key(toks, p) {
            Some(k) => {
                let q = spec_expect(toks, p + 1, TokenType::Colon);
                let v = spec_value(toks, q, last);
                match v.0 {
                    Some(x) => (acc.push((k, x)), v.1, v.2),
                    None => (acc, v.1, v.2),
                }
            },
            None => (acc, p + 1, Some(toks[p])),
        };
        let c = spec_skip_comma(toks, step.1, step.2);
        if c.0 <= p || c.0 > toks.len() {
            (step.0, c.0, c.1)
        } else {
            spec_object(toks, c.0, c.1, step.0)
        }
    }
}

/// A token that the parser cannot read as a value: a string literal made of
/// one quote (taking its text without quotes would panic).
pub open spec fn bad_token(t: Token) -> bool {
    t.token_type == TokenType::StringLiteral && t.value@ == seq!['"']
}

/// Reading a value at token `p` reads no string literal made of one quote
/// as a value.
pub open spec fn value_clean(toks: Seq<Token>, p: int, last: Option<Token>) -> bool
    decreases toks.len() - p, 0int,
{
    if p < 0 || p >= toks.len() {
        true
    } else {
        let t = toks[p];
        match t.token_type {
            TokenType::StringLiteral => !bad_token(t),
            TokenType::LBracket => array_clean(toks, p + 1, Some(t)),
            TokenType::LCurly => object_clean(toks, p + 1, Some(t)),
            _ => true,
        }
    }
}

/// Reading the items of an array from token `p` reads no lone quote as a
/// value.
pub open spec fn array_clean(toks: Seq<Token>, p: int, last: Option<Token>) -> bool
    decreases toks.len() - p, 1int,
{
    if p < 0 || p >= toks.len() {
        true
    } else if toks[p].token_type == TokenType::RBracket {
        true
    } else {
        let v = spec_value(toks, p, last);
        let step = match v.0 {
            Some(x) => (v.1, v.2),
            None => if 0 <= v.1 < toks.len() {
                (v.1 + 1, Some(toks[v.1]))
            } else {
                (v.1, v.2)
            },
        };
        let c = spec_skip_comma(toks, step.0, step.1);
        value_clean(toks, p, last) && if c.0 <= p || c.0 > toks.len() {
            true
        } else {
            array_clean(toks, c.0, c.1)
        }
    }
}

/// Reading the entries of an object from token `p` reads no lone quote as
/// a value.
pub open spec fn object_clean(toks: Seq<Token>, p: int, last: Option<Token>) -> bool
    decreases toks.len() - p, 1int,
{
    if p < 0 || p >= toks.len() {
        true
    } else if toks[p].token_type == TokenType::RCurly {
        true
    } else {
        let q = spec_expect(toks, p + 1, TokenType::Colon);
        let here = match spec_key(toks, p) {
            Some(k) => value_clean(toks, q, last),
            None => true,
        };
        let step = match spec_key(toks, p) {
            Some(k) => {
                let v = spec_value(toks, q, last);
                (v.1, v.2)
            },
            None => (p + 1, Some(toks[p])),
        };
        let c = spec_skip_comma(toks, step.0, step.1);
        here && if c.0 <= p || c.0 > toks.len() {
            true
        } else {
            object_clean(toks, c.0, c.1)
        }
    }
}

/// The parser over a sequence of tokens.
pub struct Parser {
    tokens: Vec<Token>,
    pos: usize,
    last_token: Option<Token>,
}

impl Parser {
    pub closed spec fn tokens(&self) -> Seq<Token> {
        self.tokens@
    }

    pub closed spec fn position(&self) -> int {
        self.pos as int
    }

    pub closed spec fn last(&self) -> Option<Token> {
        self.last_token
    }

    pub closed spec fn wf(&self) -> bool {
        self.pos <= self.tokens@.len()
    }

    pub fn new(tokens: Vec<Token>) -> (r: Self)
        ensures
            r.wf(),
            r.tokens() == tokens@,
            r.position() == 0,
            r.last() is None,
    {
        Parser { tokens, pos: 0, last_token: None }
    }

    fn peek_type(&self) -> (r: Option<TokenType>)
        ensures
            self.pos < self.tokens@.len() ==> r == Some(self.tokens@[self.pos as int].token_type),
            self.pos >= self.tokens@.len() ==> r is None,
    {
        if self.pos < self.tokens.len() {
            Some(self.tokens[self.pos].token_type)
        } else {
            None
        }
    }

    /// Takes the next token.
    fn next(&mut self) -> (r: Option<Token>)
        requires
            old(self).wf(),
        ensures
            final(self).wf(),
            final(self).tokens@ == old(self).tokens@,
            final(self).last_token == old(self).last_token,
            old(self).pos < old(self).tokens@.len() ==> r == Some(old(self).tokens@[old(self).pos as int])
                && final(self).pos == old(self).pos + 1,
            old(self).pos >= old(self).tokens@.len() ==> r is None && final(self).pos == old(self).pos,
    {
        if self.pos < self.tokens.len() {
            let t = self.tokens[self.pos].clone();
            self.pos = self.pos + 1;
            Some(t)
        } else {
            None
        }
    }

    /// Skips a token of the expected class if it comes next.
    fn expect(&mut self, expected: TokenType)
        requires
            old(self).wf(),
        ensures
            final(self).wf(),
            final(self).tokens@ == old(self).tokens@,
            final(self).last_token == old(self).last_token,
            final(self).pos == spec_expect(old(self).tokens@, old(self).pos as int, expected),
    {
        if self.peek_type() == Some(expected) {
            self.next();
        }
    }

    /// Skips tokens up to (not including) the next token of the given class.
    fn skip_to(&mut self, target: TokenType)
        requires
            old(self).wf(),
        ensures
            final(self).wf(),
            final(self).tokens@ == old(self).tokens@,
            final(self).last_token == old(self).last_token,
            old(self).pos <= final(self).pos,
            final(self).pos < final(self).tokens@.len() ==> final(self).tokens@[final(self).pos as int].token_type == target,
            forall|k: int| old(self).pos <= k < final(self).pos ==> (#[trigger] final(self).tokens@[k]).token_type != target,
    {
        while self.pos < self.tokens.len() && self.tokens[self.pos].token_type != target
            invariant
                self.wf(),
                self.tokens@ == old(self).tokens@,
                self.last_token == old(self).last_token,
                old(self).pos <= self.pos,
                forall|k: int| old(self).pos <= k < self.pos ==> (#[trigger] self.tokens@[k]).token_type != target,
            decreases self.tokens@.len() - self.pos,
        {
            self.pos = self.pos + 1;
        }
    }

    /// Skips a comma if one comes next, recording it.
    fn skip_comma(&mut self)
        requires
            old(self).wf(),
        ensures
            final(self).wf(),
            final(self).tokens@ == old(self).tokens@,
            (final(self).pos as int, final(self).last_token) == spec_skip_comma(old(self).tokens@, old(self).pos as int, old(self).last_token),
    {
        if self.peek_type() == Some(TokenType::Comma) {
            let t = self.next();
            self.last_token = t;
        }
    }

    /// Reads an object key.
    fn parse_object_key(&mut self) -> (r: Option<String>)
        requires
            old(self).wf(),
        ensures
            final(self).wf(),
            final(self).tokens@ == old(self).tokens@,
            final(self).last_token == old(self).last_token,
            match spec_key(old(self).tokens@, old(self).pos as int) {
                Some(k) => r is Some && r.unwrap()@ == k && final(self).pos == old(self).pos + 1,
                None => r is None && final(self).pos == old(self).pos,
            },
    {
        match self.peek_type() {
            Some(TokenType::Identifier) | Some(TokenType::BoolLiteral) | Some(TokenType::NullLiteral) => {
                let t = self.next();
                Some(t.unwrap().value)
            },
            _ => None,
        }
    }

    /// Reads one value; on failure nothing is returned and the position is
    /// where the value was sought or just after a malformed literal.
    fn parse_value(&mut self, stuck: &mut bool) -> (r: Option<Value>)
        requires
            old(self).wf(),
        ensures
            final(self).wf(),
            final(self).tokens@ == old(self).tokens@,
            *final(stuck) == (*old(stuck) || !value_clean(old(self).tokens@, old(self).pos as int, old(self).last_token)),
            ({
                let s = spec_value(old(self).tokens@, old(self).pos as int, old(self).last_token);
                &&& r.is_some() == s.0.is_some()
                &&& (r is Some ==> value_view(r.unwrap()) == s.0.unwrap())
                &&& final(self).pos == s.1
                &&& final(self).last_token == s.2
            }),
            old(self).pos <= final(self).pos,
            r is Some ==> old(self).pos < final(self).pos,
        decreases old(self).tokens@.len() - old(self).pos, 0int,
    {
        let ghost toks = self.tokens@;
        let ghost p = self.pos as int;
        match self.peek_type() {
            None => None,
            Some(TokenType::StringLiteral) => {
                let t = self.next().unwrap();
                self.last_token = Some(t.clone());
                let v = str_to_chars(t.value.as_str());
                if v.len() == 1 && v[0] == '"' {
                    assert(v@ =~= seq!['"']);
                    *stuck = true;
                } else {
                    assert(v@ != seq!['"']);
                }
                if v.len() >= 2 && v[0] == '"' && v[v.len() - 1] == '"' {
                    let inner = sub_chars(v.as_slice(), 1, v.len() - 1);
                    Some(Value::String(chars_to_string(inner.as_slice())))
                } else {
                    None
                }
            },
            Some(TokenType::NumberLiteral) => {
                let t = self.next().unwrap();
                self.last_token = Some(t.clone());
                let v = str_to_chars(t.value.as_str());
                if check_float_literal(v.as_slice()) {
                    Some(Value::Number(t.value))
                } else {
                    None
                }
            },
            Some(TokenType::BoolLiteral) => {
                let t = self.next().unwrap();
                let v = str_to_chars(t.value.as_str());
                let tr = ['t', 'r', 'u', 'e'];
                assert(tr@ =~= seq!['t', 'r', 'u', 'e']);
                let b = eq_ignore_case(v.as_slice(), tr.as_slice());
                self.last_token = Some(t);
                Some(Value::Bool(b))
            },
            Some(TokenType::NullLiteral) => {
                let t = self.next().unwrap();
                self.last_token = Some(t);
                Some(Value::Null)
            },
            Some(TokenType::Identifier) => {
                let t = self.next().unwrap();
                self.last_token = Some(t.clone());
                Some(Value::Identifier(t.value))
            },
            Some(TokenType::LBracket) => {
                let t = self.next().unwrap();
                self.last_token = Some(t);
                let mut arr: Vec<Value> = Vec::new();
                let ghost goal = spec_array(toks, p + 1, self.last_token, seq![]);
                let ghost goal_stuck = *stuck || !array_clean(toks, p + 1, self.last_token);
                while self.pos < self.tokens.len()
                    invariant_except_break
                        goal == spec_array(toks, self.pos as int, self.last_token, values_view(arr@)),
                        goal_stuck == (*stuck || !array_clean(toks, self.pos as int, self.last_token)),
                    invariant
                        self.wf(),
                        self.tokens@ == toks,
                        toks == old(self).tokens@,
                        p == old(self).pos,
                        p < self.pos,
                    ensures
                        goal == (values_view(arr@), self.pos as int, self.last_token),
                        goal_stuck == *stuck,
                    decreases toks.len() - self.pos,
                {
                    if self.tokens[self.pos].token_type == TokenType::RBracket {
                        let t = self.next();
                        self.last_token = t;
                        break;
                    }
                    let ghost q = self.pos as int;
                    let ghost acc = values_view(arr@);
                    match self.parse_value(stuck) {
                        Some(v) => {
                            let ghost old_arr = arr@;
                            arr.push(v);
                            assert(arr@.drop_last() == old_arr);
                        },
                        None => {
                            if self.pos < self.tokens.len() {
                                let t = self.next();
                                self.last_token = t;
                            }
                        },
                    }
                    self.skip_comma();
                    assert(q < self.pos);
                }
                Some(Value::Array(arr))
            },
            Some(TokenType::LCurly) => {
                let t = self.next().unwrap();
                self.last_token = Some(t);
                let mut obj: Vec<(String, Value)> = Vec::new();
                let ghost goal = spec_object(toks, p + 1, self.last_token, seq![]);
                let ghost goal_stuck = *stuck || !object_clean(toks, p + 1, self.last_token);
                while self.pos < self.tokens.len()
                    invariant_except_break
                        goal == spec_object(toks, self.pos as int, self.last_token, entries_view(obj@)),
                        goal_stuck == (*stuck || !object_clean(toks, self.pos as int, self.last_token)),
                    invariant
                        self.wf(),
                        self.tokens@ == toks,
                        toks == old(self).tokens@,
                        p == old(self).pos,
                        p < self.pos,
                    ensures
                        goal == (entries_view(obj@), self.pos as int, self.last_token),
                        goal_stuck == *stuck,
                    decreases toks.len() - self.pos,
                {
                    if self.tokens[self.pos].token_type == TokenType::RCurly {
                        let t = self.next();
                        self.last_token = t;
                        break;
                    }
                    let ghost q = self.pos as int;
                    match self.parse_object_key() {
                        Some(key) => {
                            self.expect(TokenType::Colon);
                            match self.parse_value(stuck) {
                                Some(v) => {
                                    let ghost old_obj = obj@;
                                    obj.push((key, v));
                                    assert(obj@.drop_last() == old_obj);
                                },
                                None => {},
                            }
                        },
                        None => {
                            let t = self.next();
                            self.last_token = t;
                        },
                    }
                    self.skip_comma();
                    assert(q < self.pos);
                }
                Some(Value::Object(obj))
            },
            _ => None,
        }
    }
}

/// Type of shader block in a `.mat` file.
#[derive(Debug, Clone, Copy, PartialEq, Eq, Structural)]
pub enum ShaderBlockType {
    Vertex,
    Fragment,
    Compute,
    Tool,
}

/// A shader block (vertex/fragment/compute/tool) containing raw GLSL code.
#[derive(Debug, Clone, PartialEq)]
pub struct ShaderBlock {
    pub block_type: ShaderBlockType,
    pub code: String,
    pub range: TextRange,
    /// Extracted GLSL symbols (functions, uniforms, varyings, references).
    pub symbols: Vec<ShaderSymbol>,
}

/// The syntax tree of a complete `.mat` file.
#[derive(Debug, PartialEq)]
pub struct MatFile {
    pub material: Material,
    pub shaders: Vec<ShaderBlock>,
    pub errors: Vec<ParseError>,
}

/// A material block.
#[derive(Debug, PartialEq)]
pub struct Material {
    pub range: TextRange,
    /// Populated from the last `name` property whose value is an identifier or a string.
    pub name: Option<Located<String>>,
    /// Populated from the last `shadingModel` property whose value is an identifier.
    pub shading_model: Option<Located<String>>,
    /// All parsed properties other than the structured arrays.
    pub properties: Vec<(String, Located<Value>)>,
    pub parameters: Vec<Parameter>,
    pub constants: Vec<Constant>,
    pub variables: Vec<Variable>,
    pub buffers: Vec<Buffer>,
    pub subpasses: Vec<Subpass>,
    pub outputs: Vec<Output>,
}

#[derive(Debug, PartialEq)]
pub struct Parameter {
    pub param_type: String,
    pub name: String,
    pub other_fields: Vec<(String, Value)>,
    pub range: TextRange,
}

#[derive(Debug, PartialEq)]
pub struct Constant {
    pub name: String,
    pub const_type: String,
    pub default_value: Option<Value>,
    pub range: TextRange,
}

#[derive(Debug, PartialEq)]
pub struct Variable {
    pub name: String,
    pub range: TextRange,
}

#[derive(Debug, PartialEq)]
pub struct Buffer {
    pub name: String,
    pub range: TextRange,
}

#[derive(Debug, PartialEq)]
pub struct Subpass {
    pub name: String,
    pub subpass_type: String,
    pub range: TextRange,
}

#[derive(Debug, PartialEq)]
pub struct Output {
    pub name: String,
    pub output_type: String,
    pub range: TextRange,
}

pub struct ParameterView {
    pub param_type: Seq<char>,
    pub name: Seq<char>,
    pub other_fields: Seq<(Seq<char>, ValueView)>,
    pub range: TextRange,
}

pub struct ConstantView {
    pub name: Seq<char>,
    pub const_type: Seq<char>,
    pub default_value: Option<ValueView>,
    pub range: TextRange,
}

/// A named item (variable or buffer).
pub struct NamedView {
    pub name: Seq<char>,
    pub range: TextRange,
}

/// A named, typed item (subpass or output).
pub struct TypedView {
    pub name: Seq<char>,
    pub ty: Seq<char>,
    pub range: TextRange,
}

pub struct MaterialView {
    pub range: TextRange,
    pub name: Option<(Seq<char>, TextRange)>,
    pub shading_model: Option<(Seq<char>, TextRange)>,
    pub properties: Seq<(Seq<char>, ValueView, TextRange)>,
    pub parameters: Seq<ParameterView>,
    pub constants: Seq<ConstantView>,
    pub variables: Seq<NamedView>,
    pub buffers: Seq<NamedView>,
    pub subpasses: Seq<TypedView>,
    pub outputs: Seq<TypedView>,
}

impl View for Parameter {
    type V = ParameterView;

    open spec fn view(&self) -> ParameterView {
        ParameterView {
            param_type: self.param_type@,
            name: self.name@,
            other_fields: entries_view(self.other_fields@),
            range: self.range,
        }
    }
}

impl View for Constant {
    type V = ConstantView;

    open spec fn view(&self) -> ConstantView {
        ConstantView {
            name: self.name@,
            const_type: self.const_type@,
            default_value: match self.default_value {
                Some(v) => Some(value_view(v)),
                None => None,
            },
            range: self.range,
        }
    }
}

impl View for Variable {
    type V = NamedView;

    open spec fn view(&self) -> NamedView {
        NamedView { name: self.name@, range: self.range }
    }
}

impl View for Buffer {
    type V = NamedView;

    open spec fn view(&self) -> NamedView {
        NamedView { name: self.name@, range: self.range }
    }
}

impl View for Subpass {
    type V = TypedView;

    open spec fn view(&self) -> TypedView {
        TypedView { name: self.name@, ty: self.subpass_type@, range: self.range }
    }
}

impl View for Output {
    type V = TypedView;

    open spec fn view(&self) -> TypedView {
        TypedView { name: self.name@, ty: self.output_type@, range: self.range }
    }
}

pub open spec fn located_string_view(l: Option<Located<String>>) -> Option<(Seq<char>, TextRange)> {
    match l {
        Some(x) => Some((x.value@, x.range)),
        None => None,
    }
}

pub open spec fn properties_view(s: Seq<(String, Located<Value>)>) -> Seq<(Seq<char>, ValueView, TextRange)> {
    s.map_values(|e: (String, Located<Value>)| (e.0@, value_view(e.1.value), e.1.range))
}

pub open spec fn params_view(s: Seq<Parameter>) -> Seq<ParameterView> {
    s.map_values(|p: Parameter| p@)
}

pub open spec fn consts_view(s: Seq<Constant>) -> Seq<ConstantView> {
    s.map_values(|c: Constant| c@)
}

pub open spec fn vars_view(s: Seq<Variable>) -> Seq<NamedView> {
    s.map_values(|v: Variable| v@)
}

pub open spec fn buffers_view(s: Seq<Buffer>) -> Seq<NamedView> {
    s.map_values(|b: Buffer| b@)
}

pub open spec fn subpasses_view(s: Seq<Subpass>) -> Seq<TypedView> {
    s.map_values(|x: Subpass| x@)
}

pub open spec fn outputs_view(s: Seq<Output>) -> Seq<TypedView> {
    s.map_values(|x: Output| x@)
}

impl View for Material {
    type V = MaterialView;

    open spec fn view(&self) -> MaterialView {
        MaterialView {
            range: self.range,
            name: located_string_view(self.name),
            shading_model: located_string_view(self.shading_model),
            properties: properties_view(self.properties@),
            parameters: params_view(self.parameters@),
            constants: consts_view(self.constants@),
            variables: vars_view(self.variables@),
            buffers: buffers_view(self.buffers@),
            subpasses: subpasses_view(self.subpasses@),
            outputs: outputs_view(self.outputs@),
        }
    }
}

pub open spec fn zero_range() -> TextRange {
    TextRange { start: TextPosition { line: 0, character: 0 }, end: TextPosition { line: 0, character: 0 } }
}

/// A column sum saturated at `u32::MAX`.
pub open spec fn sat_col(x: int) -> u32 {
    if x <= u32::MAX { x as u32 } else { u32::MAX }
}

/// The range from the start of `start` to the end of `end`'s text (the end
/// column counts UTF-8 bytes).
pub open spec fn spec_make_range(start: Token, end: Token) -> TextRange {
    TextRange {
        start: TextPosition { line: start.line, character: start.column },
        end: TextPosition { line: end.line, character: sat_col(end.column + utf8_len(end.value@)) },
    }
}

/// The range of a token's text.
pub open spec fn token_range(t: Token) -> TextRange {
    spec_make_range(t, t)
}


/// The views of the properties of one object in a structured array.
pub type PropsView = Seq<(Seq<char>, ValueView)>;

/// The fields of an object `{ ... }` of a structured array from token `p`:
/// the entries, the position after the closing brace, the last recorded
/// token, and the closing brace (or `end` when there is none).
pub open spec fn spec_props(toks: Seq<Token>, p: int, last: Option<Token>, acc: PropsView, end: Token) -> (PropsView, int, Option<Token>, Token)
    decreases toks.len() - p,
{
    if p < 0 || p >= toks.len() {
        (acc, p, last, end)
    } else if toks[p].token_type == TokenType::RCurly {
        (acc, p + 1, last, toks[p])
    } else {
        let step = match spec_key(toks, p) {
            Some(k) => {
                let q = spec_expect(toks, p + 1, TokenType::Colon);
                let v = spec_value(toks, q, last);
                match v.0 {
                    Some(x) => (acc.push((k, x)), v.1, v.2),
                    None => (acc, v.1, v.2),
                }
            },
            None => (acc, p + 1, Some(toks[p])),
        };
        let p3 = spec_expect(toks, step.1, TokenType::Comma);
        if p3 <= p || p3 > toks.len() {
            (step.0, p3, step.2, end)
        } else {
            spec_props(toks, p3, step.2, step.0, end)
        }
    }
}

/// Reading the fields of an object of a structured array from token `p`
/// reads no lone quote as a value.
pub open spec fn props_clean(toks: Seq<Token>, p: int, last: Option<Token>) -> bool
    decreases toks.len() - p,
{
    if p < 0 || p >= toks.len() {
        true
    } else if toks[p].token_type == TokenType::RCurly {
        true
    } else {
        let q = spec_expect(toks, p + 1, TokenType::Colon);
        let here = match spec_key(toks, p) {
            Some(k) => value_clean(toks, q, last),
            None => true,
        };
        let step = match spec_key(toks, p) {
            Some(k) => {
                let v = spec_value(toks, q, last);
                (v.1, v.2)
            },
            None => (p + 1, Some(toks[p])),
        };
        let p3 = spec_expect(toks, step.0, TokenType::Comma);
        here && if p3 <= p || p3 > toks.len() {
            true
        } else {
            props_clean(toks, p3, step.1)
        }
    }
}

/// The objects of a structured array, each with its range, from token `p`
/// to the closing bracket; `None` when an element is neither an object nor a
/// comma (the element loop then makes no progress), or when an object's
/// fields read a lone quote as a value.
pub open spec fn spec_elems(toks: Seq<Token>, p: int, last: Option<Token>, acc: Seq<(PropsView, TextRange)>) -> Option<(Seq<(PropsView, TextRange)>, int, Option<Token>)>
    decreases toks.len() - p,
{
    if p < 0 || p >= toks.len() {
        Some((acc, p, last))
    } else if toks[p].token_type == TokenType::RBracket {
        Some((acc, p + 1, last))
    } else if toks[p].token_type == TokenType::LCurly && !props_clean(toks, p + 1, last) {
        None
    } else {
        let step = if toks[p].token_type == TokenType::LCurly {
            let r = spec_props(toks, p + 1, last, seq![], toks[p]);
            (acc.push((r.0, spec_make_range(toks[p], r.3))), r.1, r.2)
        } else {
            (acc, p, last)
        };
        let p3 = spec_expect(toks, step.1, TokenType::Comma);
        if p3 == p {
            None
        } else if p3 < p || p3 > toks.len() {
            Some((step.0, p3, step.2))
        } else {
            spec_elems(toks, p3, step.2, step.0)
        }
    }
}

/// A structured array `[ {...}, ... ]` at token `p`; nothing when it does
/// not start with a bracket.
pub open spec fn spec_struct_array(toks: Seq<Token>, p: int, last: Option<Token>) -> Option<(Seq<(PropsView, TextRange)>, int, Option<Token>)> {
    if tok_is(toks, p, TokenType::LBracket) {
        spec_elems(toks, p + 1, last, seq![])
    } else {
        Some((seq![], p, last))
    }
}

pub open spec fn is_lower_key(k: Seq<char>, word: Seq<char>) -> bool {
    lowercase_of(k) == word
}

pub open spec fn ident_of(v: ValueView) -> Option<Seq<char>> {
    match v {
        ValueView::Identifier(s) => Some(s),
        _ => None,
    }
}

pub open spec fn ident_or_string_of(v: ValueView) -> Option<Seq<char>> {
    match v {
        ValueView::Identifier(s) => Some(s),
        ValueView::String(s) => Some(s),
        _ => None,
    }
}

/// The last identifier value of a field whose lower-cased key is `word`.
pub open spec fn last_ident_field(props: PropsView, word: Seq<char>) -> Option<Seq<char>>
    decreases props.len(),
{
    if props.len() == 0 {
        None
    } else if is_lower_key(props.last().0, word) && ident_of(props.last().1) is Some {
        ident_of(props.last().1)
    } else {
        last_ident_field(props.drop_last(), word)
    }
}

/// The last identifier-or-string value of a field whose lower-cased key is `word`.
pub open spec fn last_name_field(props: PropsView, word: Seq<char>) -> Option<Seq<char>>
    decreases props.len(),
{
    if props.len() == 0 {
        None
    } else if is_lower_key(props.last().0, word) && ident_or_string_of(props.last().1) is Some {
        ident_or_string_of(props.last().1)
    } else {
        last_name_field(props.drop_last(), word)
    }
}

/// The last value of a field whose lower-cased key is `word`.
pub open spec fn last_field(props: PropsView, word: Seq<char>) -> Option<ValueView>
    decreases props.len(),
{
    if props.len() == 0 {
        None
    } else if is_lower_key(props.last().0, word) {
        Some(props.last().1)
    } else {
        last_field(props.drop_last(), word)
    }
}

/// The fields whose lower-cased key is neither `type` nor `name`, in order.
pub open spec fn other_fields(props: PropsView) -> PropsView
    decreases props.len(),
{
    if props.len() == 0 {
        seq![]
    } else if is_lower_key(props.last().0, "type"@) || is_lower_key(props.last().0, "name"@) {
        other_fields(props.drop_last())
    } else {
        other_fields(props.drop_last()).push(props.last())
    }
}

pub open spec fn spec_parameter(props: PropsView, range: TextRange) -> Option<ParameterView> {
    match (last_ident_field(props, "type"@), last_ident_field(props, "name"@)) {
        (Some(t), Some(n)) => Some(ParameterView { param_type: t, name: n, other_fields: other_fields(props), range }),
        _ => None,
    }
}

pub open spec fn spec_constant(props: PropsView, range: TextRange) -> Option<ConstantView> {
    match (last_name_field(props, "name"@), last_ident_field(props, "type"@)) {
        (Some(n), Some(t)) => Some(ConstantView { name: n, const_type: t, default_value: last_field(props, "default"@), range }),
        _ => None,
    }
}

pub open spec fn spec_buffer(props: PropsView, range: TextRange) -> Option<NamedView> {
    match last_name_field(props, "name"@) {
        Some(n) => Some(NamedView { name: n, range }),
        None => None,
    }
}

pub open spec fn spec_typed(props: PropsView, range: TextRange) -> Option<TypedView> {
    match (last_name_field(props, "name"@), last_ident_field(props, "type"@)) {
        (Some(n), Some(t)) => Some(TypedView { name: n, ty: t, range }),
        _ => None,
    }
}

/// The elements that make a valid item (by `spec_parameter`), in order.
pub open spec fn filter_params(elems: Seq<(PropsView, TextRange)>) -> Seq<ParameterView>
    decreases elems.len(),
{
    if elems.len() == 0 {
        seq![]
    } else {
        let rest = filter_params(elems.drop_last());
        match spec_parameter(elems.last().0, elems.last().1) {
            Some(x) => rest.push(x),
            None => rest,
        }
    }
}

/// The elements that make a valid item (by `spec_constant`), in order.
pub open spec fn filter_constants(elems: Seq<(PropsView, TextRange)>) -> Seq<ConstantView>
    decreases elems.len(),
{
    if elems.len() == 0 {
        seq![]
    } else {
        let rest = filter_constants(elems.drop_last());
        match spec_constant(elems.last().0, elems.last().1) {
            Some(x) => rest.push(x),
            None => rest,
        }
    }
}

/// The elements that make a valid item (by `spec_buffer`), in order.
pub open spec fn filter_buffers(elems: Seq<(PropsView, TextRange)>) -> Seq<NamedView>
    decreases elems.len(),
{
    if elems.len() == 0 {
        seq![]
    } else {
        let rest = filter_buffers(elems.drop_last());
        match spec_buffer(elems.last().0, elems.last().1) {
            Some(x) => rest.push(x),
            None => rest,
        }
    }
}

/// The elements that make a valid item (by `spec_typed`), in order.
pub open spec fn filter_typed(elems: Seq<(PropsView, TextRange)>) -> Seq<TypedView>
    decreases elems.len(),
{
    if elems.len() == 0 {
        seq![]
    } else {
        let rest = filter_typed(elems.drop_last());
        match spec_typed(elems.last().0, elems.last().1) {
            Some(x) => rest.push(x),
            None => rest,
        }
    }
}

/// The variables named by the identifier items of a value that is an array,
/// each placed at the range of `last`.
pub open spec fn spec_variables(v: Option<ValueView>, last: Option<Token>) -> Seq<NamedView> {
    let range = match last {
        Some(t) => token_range(t),
        None => zero_range(),
    };
    match v {
        Some(ValueView::Array(items)) => named_items(items, range),
        _ => seq![],
    }
}

/// One variable for each identifier item, in order.
pub open spec fn named_items(items: Seq<ValueView>, range: TextRange) -> Seq<NamedView>
    decreases items.len(),
{
    if items.len() == 0 {
        seq![]
    } else {
        match items.last() {
            ValueView::Identifier(s) => named_items(items.drop_last(), range).push(NamedView { name: s, range }),
            _ => named_items(items.drop_last(), range),
        }
    }
}

/// The last property with the given key whose value is an identifier (or,
/// with `strings`, a string), with its range.
pub open spec fn last_prop(props: Seq<(Seq<char>, ValueView, TextRange)>, key: Seq<char>, strings: bool) -> Option<(Seq<char>, TextRange)>
    decreases props.len(),
{
    if props.len() == 0 {
        None
    } else {
        let e = props.last();
        let s = if strings { ident_or_string_of(e.1) } else { ident_of(e.1) };
        if e.0 == key && s is Some {
            Some((s.unwrap(), e.2))
        } else {
            last_prop(props.drop_last(), key, strings)
        }
    }
}

/// The body of a material block from token `p` up to and including its
/// closing brace, added to `m`; `None` when the parse makes no progress or
/// reads a lone quote as a value.
pub open spec fn spec_material_body(toks: Seq<Token>, p: int, last: Option<Token>, m: MaterialView) -> Option<(MaterialView, int, Option<Token>)>
    decreases toks.len() - p,
{
    if p < 0 || p >= toks.len() {
        Some((m, p, last))
    } else if toks[p].token_type == TokenType::RCurly {
        let end = TextPosition { line: toks[p].line, character: sat_col(toks[p].column + 1) };
        Some((MaterialView { range: TextRange { start: m.range.start, end }, ..m }, p + 1, last))
    } else if spec_key(toks, p) is Some {
        let kt = toks[p];
        let key = kt.value@;
        let q = spec_expect(toks, p + 1, TokenType::Colon);
        let r: Option<(MaterialView, int, Option<Token>)> = if key == "parameters"@ {
            match spec_struct_array(toks, q, last) {
                Some(a) => Some((MaterialView {
                    parameters: m.parameters + filter_params(a.0),
                    ..m
                }, a.1, a.2)),
                None => None,
            }
        } else if key == "constants"@ {
            match spec_struct_array(toks, q, last) {
                Some(a) => Some((MaterialView {
                    constants: m.constants + filter_constants(a.0),
                    ..m
                }, a.1, a.2)),
                None => None,
            }
        } else if key == "variables"@ {
            if !value_clean(toks, q, last) {
                None
            } else {
                let v = spec_value(toks, q, last);
                Some((MaterialView { variables: m.variables + spec_variables(v.0, v.2), ..m }, v.1, v.2))
            }
        } else if key == "buffers"@ {
            match spec_struct_array(toks, q, last) {
                Some(a) => Some((MaterialView {
                    buffers: m.buffers + filter_buffers(a.0),
                    ..m
                }, a.1, a.2)),
                None => None,
            }
        } else if key == "subpasses"@ {
            match spec_struct_array(toks, q, last) {
                Some(a) => Some((MaterialView {
                    subpasses: m.subpasses + filter_typed(a.0),
                    ..m
                }, a.1, a.2)),
                None => None,
            }
        } else if key == "outputs"@ {
            match spec_struct_array(toks, q, last) {
                Some(a) => Some((MaterialView {
                    outputs: m.outputs + filter_typed(a.0),
                    ..m
                }, a.1, a.2)),
                None => None,
            }
        } else if !value_clean(toks, q, last) {
            None
        } else {
            let v = spec_value(toks, q, last);
            match v.0 {
                Some(x) => {
                    let end_tok = match v.2 {
                        Some(t) => t,
                        None => kt,
                    };
                    Some((MaterialView { properties: m.properties.push((key, x, spec_make_range(kt, end_tok))), ..m }, v.1, v.2))
                },
                None => Some((m, v.1, v.2)),
            }
        };
        match r {
            None => None,
            Some(res) => if res.1 <= p || res.1 > toks.len() {
                Some(res)
            } else {
                spec_material_body(toks, res.1, res.2, res.0)
            },
        }
    } else {
        spec_material_body(toks, p + 1, last, m)
    }
}

/// The first index from `p` on of a token of class `tt`, or the end.
pub open spec fn spec_skip_to(toks: Seq<Token>, p: int, tt: TokenType) -> int
    decreases toks.len() - p,
{
    if p < 0 || p >= toks.len() {
        p
    } else if toks[p].token_type == tt {
        p
    } else {
        spec_skip_to(toks, p + 1, tt)
    }
}

pub open spec fn empty_material(range: TextRange) -> MaterialView {
    MaterialView {
        range,
        name: None,
        shading_model: None,
        properties: seq![],
        parameters: seq![],
        constants: seq![],
        variables: seq![],
        buffers: seq![],
        subpasses: seq![],
        outputs: seq![],
    }
}

/// The material with its `name` and `shadingModel` fields filled from its
/// properties.
pub open spec fn with_derived_fields(m: MaterialView) -> MaterialView {
    MaterialView {
        name: last_prop(m.properties, "name"@, true),
        shading_model: last_prop(m.properties, "shadingModel"@, false),
        ..m
    }
}

pub open spec fn eof_message(expected: Seq<char>) -> Seq<char> {
    "Unexpected end of file, expected "@ + expected
}

/// Reading a material block at token `p`: `Err` (with the message of an
/// unexpected end) when no token is left, else the material; also the next
/// position and last token. `None` when the parse makes no progress.
pub open spec fn spec_parse_material(toks: Seq<Token>, p: int, last: Option<Token>) -> Option<(Result<MaterialView, Seq<char>>, int, Option<Token>)> {
    if p < 0 || p >= toks.len() {
        Some((Err(eof_message("material block"@)), p, last))
    } else {
        let start = toks[p];
        let s = spec_skip_to(toks, p, TokenType::LCurly);
        let q = spec_expect(toks, s, TokenType::LCurly);
        let m0 = empty_material(TextRange {
            start: TextPosition { line: start.line, character: start.column },
            end: TextPosition { line: 0, character: 0 },
        });
        match spec_material_body(toks, q, last, m0) {
            Some(r) => Some((Ok::<MaterialView, Seq<char>>(with_derived_fields(r.0)), r.1, r.2)),
            None => None,
        }
    }
}

impl ParseError {
    fn new(message: String, range: TextRange) -> (r: Self)
        ensures
            r.message == message,
            r.range == range,
    {
        ParseError { message, range }
    }

    fn at_token(message: String, token: &Token) -> (r: Self)
        ensures
            r.message == message,
            r.range == token_range(*token),
    {
        let range = Parser::make_range(token, token);
        Self::new(message, range)
    }

    fn at_eof(expected: &str) -> (r: Self)
        ensures
            r.message@ == eof_message(expected@),
            r.range == zero_range(),
    {
        let mut m = to_owned_string("Unexpected end of file, expected ");
        string_push_str(&mut m, expected);
        Self::new(m, TextRange {
            start: TextPosition { line: 0, character: 0 },
            end: TextPosition { line: 0, character: 0 },
        })
    }
}

/// The field names `type`, `name` and `default` are different words.
proof fn lemma_field_words_distinct()
    ensures
        "type"@ != "name"@,
        "type"@ != "default"@,
        "name"@ != "default"@,
{
    reveal_strlit("type");
    reveal_strlit("name");
    reveal_strlit("default");
    assert("type"@[0] != "name"@[0]);
}

/// Whether a lower-cased key is the given word.
fn key_is(lowered: &String, word: &str) -> (r: bool)
    ensures
        r == (lowered@ == word@),
{
    str_eq(lowered.as_str(), word)
}

/// A parameter from the fields of its object; `None` without an identifier
/// `type` and `name`.
fn parameter_from_props(props: Vec<(String, Value)>, range: TextRange) -> (r: Option<Parameter>)
    ensures
        match spec_parameter(entries_view(props@), range) {
            Some(pv) => r is Some && r.unwrap()@ == pv,
            None => r is None,
        },
{
    let ghost orig = props@;
    let mut props = props;
    let mut param_type: Option<String> = None;
    let mut name: Option<String> = None;
    let mut other: Vec<(String, Value)> = Vec::new();
    let ghost mut i: int = 0;
    while props.len() > 0
        invariant
            0 <= i <= orig.len(),
            props@ == orig.skip(i),
            ({
                let pre = entries_view(orig.take(i));
                &&& param_type.is_some() == last_ident_field(pre, "type"@).is_some()
                &&& (param_type is Some ==> param_type.unwrap()@ == last_ident_field(pre, "type"@).unwrap())
                &&& name.is_some() == last_ident_field(pre, "name"@).is_some()
                &&& (name is Some ==> name.unwrap()@ == last_ident_field(pre, "name"@).unwrap())
                &&& entries_view(other@) == other_fields(pre)
            }),
        decreases props@.len(),
    {
        let ghost before = props@;
        let (k, v) = props.remove(0);
        proof {
            lemma_field_words_distinct();
            assert(orig.take(i + 1).drop_last() =~= orig.take(i));
            assert(orig.take(i + 1).last() == orig[i]);
            assert(before[0] == orig[i]);
            assert(entries_view(orig.take(i + 1)) == entries_view(orig.take(i)).push((k@, value_view(v))));
        }
        let ghost kv = (k@, value_view(v));
        let ghost pre0 = entries_view(orig.take(i));
        let lk = to_lowercase(k.as_str());
        if key_is(&lk, "type") {
            match v {
                Value::Identifier(x) => { param_type = Some(x); },
                _ => {},
            }
        } else if key_is(&lk, "name") {
            match v {
                Value::Identifier(x) => { name = Some(x); },
                _ => {},
            }
        } else {
            let ghost old_other = other@;
            other.push((k, v));
            assert(other@.drop_last() == old_other);
        }
        proof {
            let pre1 = pre0.push(kv);
            assert(pre1.drop_last() =~= pre0);
            assert(pre1.last() == kv);
            assert(is_lower_key(kv.0, "type"@) == (lk@ == "type"@));
            assert(is_lower_key(kv.0, "name"@) == (lk@ == "name"@));
            assert(is_lower_key(kv.0, "default"@) == (lk@ == "default"@));
            i = i + 1;
            assert(props@ =~= orig.skip(i));
        }
    }
    assert(orig.take(i) =~= orig);
    match (param_type, name) {
        (Some(t), Some(n)) => Some(Parameter { param_type: t, name: n, other_fields: other, range }),
        _ => None,
    }
}

/// A constant from the fields of its object; `None` without a `name` and an
/// identifier `type`.
fn constant_from_props(props: Vec<(String, Value)>, range: TextRange) -> (r: Option<Constant>)
    ensures
        match spec_constant(entries_view(props@), range) {
            Some(cv) => r is Some && r.unwrap()@ == cv,
            None => r is None,
        },
{
    let ghost orig = props@;
    let mut props = props;
    let mut name: Option<String> = None;
    let mut const_type: Option<String> = None;
    let mut default_value: Option<Value> = None;
    let ghost mut i: int = 0;
    while props.len() > 0
        invariant
            0 <= i <= orig.len(),
            props@ == orig.skip(i),
            ({
                let pre = entries_view(orig.take(i));
                &&& name.is_some() == last_name_field(pre, "name"@).is_some()
                &&& (name is Some ==> name.unwrap()@ == last_name_field(pre, "name"@).unwrap())
                &&& const_type.is_some() == last_ident_field(pre, "type"@).is_some()
                &&& (const_type is Some ==> const_type.unwrap()@ == last_ident_field(pre, "type"@).unwrap())
                &&& default_value.is_some() == last_field(pre, "default"@).is_some()
                &&& (default_value is Some ==> value_view(default_value.unwrap()) == last_field(pre, "default"@).unwrap())
            }),
        decreases props@.len(),
    {
        let ghost before = props@;
        let (k, v) = props.remove(0);
        proof {
            lemma_field_words_distinct();
            assert(orig.take(i + 1).drop_last() =~= orig.take(i));
            assert(orig.take(i + 1).last() == orig[i]);
            assert(before[0] == orig[i]);
            assert(entries_view(orig.take(i + 1)) == entries_view(orig.take(i)).push((k@, value_view(v))));
        }
        let ghost kv = (k@, value_view(v));
        let ghost pre0 = entries_view(orig.take(i));
        let lk = to_lowercase(k.as_str());
        if key_is(&lk, "name") {
            match v {
                Value::Identifier(x) => { name = Some(x); },
                Value::String(x) => { name = Some(x); },
                _ => {},
            }
        } else if key_is(&lk, "type") {
            match v {
                Value::Identifier(x) => { const_type = Some(x); },
                _ => {},
            }
        } else if key_is(&lk, "default") {
            default_value = Some(v);
        }
        proof {
            let pre1 = pre0.push(kv);
            assert(pre1.drop_last() =~= pre0);
            assert(pre1.last() == kv);
            assert(is_lower_key(kv.0, "type"@) == (lk@ == "type"@));
            assert(is_lower_key(kv.0, "name"@) == (lk@ == "name"@));
            assert(is_lower_key(kv.0, "default"@) == (lk@ == "default"@));
            i = i + 1;
            assert(props@ =~= orig.skip(i));
        }
    }
    assert(orig.take(i) =~= orig);
    match (name, const_type) {
        (Some(n), Some(t)) => Some(Constant { name: n, const_type: t, default_value, range }),
        _ => None,
    }
}

/// The `name` (identifier or string) and, if `typed`, the identifier `type`
/// of an object's fields.
fn name_and_type_from_props(props: Vec<(String, Value)>) -> (r: (Option<String>, Option<String>))
    ensures
        r.0.is_some() == last_name_field(entries_view(props@), "name"@).is_some(),
        r.0 is Some ==> r.0.unwrap()@ == last_name_field(entries_view(props@), "name"@).unwrap(),
        r.1.is_some() == last_ident_field(entries_view(props@), "type"@).is_some(),
        r.1 is Some ==> r.1.unwrap()@ == last_ident_field(entries_view(props@), "type"@).unwrap(),
{
    let ghost orig = props@;
    let mut props = props;
    let mut name: Option<String> = None;
    let mut ty: Option<String> = None;
    let ghost mut i: int = 0;
    while props.len() > 0
        invariant
            0 <= i <= orig.len(),
            props@ == orig.skip(i),
            ({
                let pre = entries_view(orig.take(i));
                &&& name.is_some() == last_name_field(pre, "name"@).is_some()
                &&& (name is Some ==> name.unwrap()@ == last_name_field(pre, "name"@).unwrap())
                &&& ty.is_some() == last_ident_field(pre, "type"@).is_some()
                &&& (ty is Some ==> ty.unwrap()@ == last_ident_field(pre, "type"@).unwrap())
            }),
        decreases props@.len(),
    {
        let ghost before = props@;
        let (k, v) = props.remove(0);
        proof {
            lemma_field_words_distinct();
            assert(orig.take(i + 1).drop_last() =~= orig.take(i));
            assert(orig.take(i + 1).last() == orig[i]);
            assert(before[0] == orig[i]);
            assert(entries_view(orig.take(i + 1)) == entries_view(orig.take(i)).push((k@, value_view(v))));
        }
        let ghost kv = (k@, value_view(v));
        let ghost pre0 = entries_view(orig.take(i));
        let lk = to_lowercase(k.as_str());
        if key_is(&lk, "name") {
            match v {
                Value::Identifier(x) => { name = Some(x); },
                Value::String(x) => { name = Some(x); },
                _ => {},
            }
        } else if key_is(&lk, "type") {
            match v {
                Value::Identifier(x) => { ty = Some(x); },
                _ => {},
            }
        }
        proof {
            let pre1 = pre0.push(kv);
            assert(pre1.drop_last() =~= pre0);
            assert(pre1.last() == kv);
            assert(is_lower_key(kv.0, "type"@) == (lk@ == "type"@));
            assert(is_lower_key(kv.0, "name"@) == (lk@ == "name"@));
            assert(is_lower_key(kv.0, "default"@) == (lk@ == "default"@));
            i = i + 1;
            assert(props@ =~= orig.skip(i));
        }
    }
    assert(orig.take(i) =~= orig);
    (name, ty)
}


/// The objects of a structured array with their ranges, as views.
pub open spec fn elems_view(s: Seq<(Vec<(String, Value)>, TextRange)>) -> Seq<(PropsView, TextRange)> {
    s.map_values(|e: (Vec<(String, Value)>, TextRange)| (entries_view(e.0@), e.1))
}

impl Parser {
    fn token_pos(token: &Token) -> (r: TextPosition)
        ensures
            r == (TextPosition { line: token.line, character: token.column }),
    {
        TextPosition { line: token.line, character: token.column }
    }

    fn make_range(start: &Token, end: &Token) -> (r: TextRange)
        ensures
            r == spec_make_range(*start, *end),
    {
        let w = utf8_len_u32(end.value.as_str());
        let c: u64 = end.column as u64 + w as u64;
        let ch: u32 = if c > u32::MAX as u64 { u32::MAX } else { c as u32 };
        TextRange { start: Self::token_pos(start), end: TextPosition { line: end.line, character: ch } }
    }

    /// Reads the fields of an object of a structured array, after its `{`.
    fn parse_props(&mut self, start: &Token, stuck: &mut bool) -> (r: (Vec<(String, Value)>, Token))
        requires
            old(self).wf(),
        ensures
            final(self).wf(),
            final(self).tokens@ == old(self).tokens@,
            *final(stuck) == (*old(stuck) || !props_clean(old(self).tokens@, old(self).pos as int, old(self).last_token)),
            old(self).pos <= final(self).pos,
            ({
                let s = spec_props(old(self).tokens@, old(self).pos as int, old(self).last_token, seq![], *start);
                &&& entries_view(r.0@) == s.0
                &&& final(self).pos == s.1
                &&& final(self).last_token == s.2
                &&& r.1 == s.3
            }),
    {
        let ghost toks = self.tokens@;
        let ghost p0 = self.pos as int;
        let mut props: Vec<(String, Value)> = Vec::new();
        let mut end_token = start.clone();
        let ghost goal = spec_props(toks, self.pos as int, self.last_token, seq![], *start);
        let ghost goal_stuck = *stuck || !props_clean(toks, self.pos as int, self.last_token);
        assert(entries_view(props@) =~= seq![]);
        while self.pos < self.tokens.len()
            invariant_except_break
                goal == spec_props(toks, self.pos as int, self.last_token, entries_view(props@), *start),
                goal_stuck == (*stuck || !props_clean(toks, self.pos as int, self.last_token)),
                end_token == *start,
            invariant
                self.wf(),
                self.tokens@ == toks,
                toks == old(self).tokens@,
                p0 == old(self).pos,
                p0 <= self.pos,
            ensures
                goal == (entries_view(props@), self.pos as int, self.last_token, end_token),
                goal_stuck == *stuck,
            decreases toks.len() - self.pos,
        {
            if self.tokens[self.pos].token_type == TokenType::RCurly {
                end_token = self.next().unwrap();
                break;
            }
            let ghost q = self.pos as int;
            match self.parse_object_key() {
                Some(key) => {
                    self.expect(TokenType::Colon);
                    match self.parse_value(stuck) {
                        Some(v) => {
                            let ghost old_props = props@;
                            props.push((key, v));
                            assert(props@.drop_last() == old_props);
                        },
                        None => {},
                    }
                },
                None => {
                    let t = self.next();
                    self.last_token = t;
                },
            }
            self.expect(TokenType::Comma);
            assert(q < self.pos);
        }
        (props, end_token)
    }

    /// Reads a structured array `[ {...}, ... ]`; `None` where an element is
    /// neither an object nor a comma, on which the reading would make no
    /// progress.
    fn parse_struct_array(&mut self) -> (r: Option<Vec<(Vec<(String, Value)>, TextRange)>>)
        requires
            old(self).wf(),
        ensures
            final(self).wf(),
            final(self).tokens@ == old(self).tokens@,
            old(self).pos <= final(self).pos,
            match spec_struct_array(old(self).tokens@, old(self).pos as int, old(self).last_token) {
                Some(a) => r is Some && elems_view(r.unwrap()@) == a.0 && final(self).pos == a.1
                    && final(self).last_token == a.2,
                None => r is None,
            },
    {
        let ghost toks = self.tokens@;
        let ghost p0 = self.pos as int;
        let mut elems: Vec<(Vec<(String, Value)>, TextRange)> = Vec::new();
        assert(elems_view(elems@) =~= seq![]);
        if self.peek_type() != Some(TokenType::LBracket) {
            return Some(elems);
        }
        self.next();
        let ghost goal = spec_elems(toks, self.pos as int, self.last_token, seq![]);
        while self.pos < self.tokens.len()
            invariant_except_break
                goal == spec_elems(toks, self.pos as int, self.last_token, elems_view(elems@)),
            invariant
                self.wf(),
                self.tokens@ == toks,
                toks == old(self).tokens@,
                p0 == old(self).pos,
                p0 < self.pos,
                goal == spec_struct_array(toks, p0, old(self).last_token),
            ensures
                goal == Some((elems_view(elems@), self.pos as int, self.last_token)),
            decreases toks.len() - self.pos,
        {
            let tt = self.tokens[self.pos].token_type;
            if tt == TokenType::RBracket {
                self.next();
                break;
            }
            let ghost q = self.pos as int;
            if tt == TokenType::LCurly {
                let ghost last0 = self.last_token;
                let start = self.next().unwrap();
                let mut stuck = false;
                let (props, end) = self.parse_props(&start, &mut stuck);
                if stuck {
                    proof {
                        assert(!props_clean(toks, q + 1, last0));
                        assert(spec_elems(toks, q, last0, elems_view(elems@)) is None);
                    }
                    return None;
                }
                let range = Self::make_range(&start, &end);
                let ghost old_elems = elems@;
                elems.push((props, range));
                assert(elems_view(elems@) =~= elems_view(old_elems).push((entries_view(props@), range)));
            } else if tt != TokenType::Comma {
                return None;
            }
            self.expect(TokenType::Comma);
            assert(q < self.pos);
        }
        Some(elems)
    }
}

/// Turns the objects of a `parameters` array into parameters, appending
/// those that have an identifier `type` and `name`.
fn push_parameters(out: &mut Vec<Parameter>, elems: Vec<(Vec<(String, Value)>, TextRange)>)
    ensures
        params_view(final(out)@) == params_view(old(out)@) + filter_params(elems_view(elems@)),
{
    let ghost e = elems_view(elems@);
    let ghost o = params_view(out@);
    let mut elems = elems;
    let ghost mut i: int = 0;
    assert(e.take(0) =~= seq![]);
    assert(o + filter_params(e.take(0)) =~= o);
    while elems.len() > 0
        invariant
            0 <= i <= e.len(),
            elems_view(elems@) == e.skip(i),
            params_view(out@) == o + filter_params(e.take(i)),
        decreases elems.len(),
    {
        let ghost before = elems@;
        assert(elems_view(before).len() == before.len());
        let (props, range) = elems.remove(0);
        proof {
            assert(e.take(i + 1).drop_last() =~= e.take(i));
            assert(e[i] == elems_view(before)[0]);
            assert forall|j: int| 0 <= j < elems@.len() implies elems_view(elems@)[j] == e.skip(i + 1)[j] by {
                assert(elems@[j] == before[j + 1]);
                assert(e.skip(i)[j + 1] == elems_view(before)[j + 1]);
            }
            assert(elems_view(elems@) =~= e.skip(i + 1));
        }
        let ghost prev = out@;
        match parameter_from_props(props, range) {
            Some(p) => {
                out.push(p);
                assert(params_view(out@) =~= params_view(prev).push(p@));
            },
            None => {},
        }
        proof {
            i = i + 1;
        }
    }
    assert(e.take(i) =~= e);
}

/// Turns the objects of a `constants` array into constants, appending those
/// that have a `name` and an identifier `type`.
fn push_constants(out: &mut Vec<Constant>, elems: Vec<(Vec<(String, Value)>, TextRange)>)
    ensures
        consts_view(final(out)@) == consts_view(old(out)@) + filter_constants(elems_view(elems@)),
{
    let ghost e = elems_view(elems@);
    let ghost o = consts_view(out@);
    let mut elems = elems;
    let ghost mut i: int = 0;
    assert(e.take(0) =~= seq![]);
    assert(o + filter_constants(e.take(0)) =~= o);
    while elems.len() > 0
        invariant
            0 <= i <= e.len(),
            elems_view(elems@) == e.skip(i),
            consts_view(out@) == o + filter_constants(e.take(i)),
        decreases elems.len(),
    {
        let ghost before = elems@;
        assert(elems_view(before).len() == before.len());
        let (props, range) = elems.remove(0);
        proof {
            assert(e.take(i + 1).drop_last() =~= e.take(i));
            assert(e[i] == elems_view(before)[0]);
            assert forall|j: int| 0 <= j < elems@.len() implies elems_view(elems@)[j] == e.skip(i + 1)[j] by {
                assert(elems@[j] == before[j + 1]);
                assert(e.skip(i)[j + 1] == elems_view(before)[j + 1]);
            }
            assert(elems_view(elems@) =~= e.skip(i + 1));
        }
        let ghost prev = out@;
        match constant_from_props(props, range) {
            Some(c) => {
                out.push(c);
                assert(consts_view(out@) =~= consts_view(prev).push(c@));
            },
            None => {},
        }
        proof {
            i = i + 1;
        }
    }
    assert(e.take(i) =~= e);
}

/// Turns the objects of a `buffers` array into buffers, appending those that
/// have a `name`.
fn push_buffers(out: &mut Vec<Buffer>, elems: Vec<(Vec<(String, Value)>, TextRange)>)
    ensures
        buffers_view(final(out)@) == buffers_view(old(out)@) + filter_buffers(elems_view(elems@)),
{
    let ghost e = elems_view(elems@);
    let ghost o = buffers_view(out@);
    let mut elems = elems;
    let ghost mut i: int = 0;
    assert(e.take(0) =~= seq![]);
    assert(o + filter_buffers(e.take(0)) =~= o);
    while elems.len() > 0
        invariant
            0 <= i <= e.len(),
            elems_view(elems@) == e.skip(i),
            buffers_view(out@) == o + filter_buffers(e.take(i)),
        decreases elems.len(),
    {
        let ghost before = elems@;
        assert(elems_view(before).len() == before.len());
        let (props, range) = elems.remove(0);
        proof {
            assert(e.take(i + 1).drop_last() =~= e.take(i));
            assert(e[i] == elems_view(before)[0]);
            assert forall|j: int| 0 <= j < elems@.len() implies elems_view(elems@)[j] == e.skip(i + 1)[j] by {
                assert(elems@[j] == before[j + 1]);
                assert(e.skip(i)[j + 1] == elems_view(before)[j + 1]);
            }
            assert(elems_view(elems@) =~= e.skip(i + 1));
        }
        let ghost prev = out@;
        let (name, _ty) = name_and_type_from_props(props);
        match name {
            Some(n) => {
                let b = Buffer { name: n, range };
                out.push(b);
                assert(buffers_view(out@) =~= buffers_view(prev).push(b@));
            },
            None => {},
        }
        proof {
            i = i + 1;
        }
    }
    assert(e.take(i) =~= e);
}

/// Turns the objects of a `subpasses` array into subpasses, appending those
/// that have a `name` and an identifier `type`.
fn push_subpasses(out: &mut Vec<Subpass>, elems: Vec<(Vec<(String, Value)>, TextRange)>)
    ensures
        subpasses_view(final(out)@) == subpasses_view(old(out)@) + filter_typed(elems_view(elems@)),
{
    let ghost e = elems_view(elems@);
    let ghost o = subpasses_view(out@);
    let mut elems = elems;
    let ghost mut i: int = 0;
    assert(e.take(0) =~= seq![]);
    assert(o + filter_typed(e.take(0)) =~= o);
    while elems.len() > 0
        invariant
            0 <= i <= e.len(),
            elems_view(elems@) == e.skip(i),
            subpasses_view(out@) == o + filter_typed(e.take(i)),
        decreases elems.len(),
    {
        let ghost before = elems@;
        assert(elems_view(before).len() == before.len());
        let (props, range) = elems.remove(0);
        proof {
            assert(e.take(i + 1).drop_last() =~= e.take(i));
            assert(e[i] == elems_view(before)[0]);
            assert forall|j: int| 0 <= j < elems@.len() implies elems_view(elems@)[j] == e.skip(i + 1)[j] by {
                assert(elems@[j] == before[j + 1]);
                assert(e.skip(i)[j + 1] == elems_view(before)[j + 1]);
            }
            assert(elems_view(elems@) =~= e.skip(i + 1));
        }
        let ghost prev = out@;
        let (name, ty) = name_and_type_from_props(props);
        match (name, ty) {
            (Some(n), Some(t)) => {
                let x = Subpass { name: n, subpass_type: t, range };
                out.push(x);
                assert(subpasses_view(out@) =~= subpasses_view(prev).push(x@));
            },
            _ => {},
        }
        proof {
            i = i + 1;
        }
    }
    assert(e.take(i) =~= e);
}

/// Turns the objects of an `outputs` array into outputs, appending those
/// that have a `name` and an identifier `type`.
fn push_outputs(out: &mut Vec<Output>, elems: Vec<(Vec<(String, Value)>, TextRange)>)
    ensures
        outputs_view(final(out)@) == outputs_view(old(out)@) + filter_typed(elems_view(elems@)),
{
    let ghost e = elems_view(elems@);
    let ghost o = outputs_view(out@);
    let mut elems = elems;
    let ghost mut i: int = 0;
    assert(e.take(0) =~= seq![]);
    assert(o + filter_typed(e.take(0)) =~= o);
    while elems.len() > 0
        invariant
            0 <= i <= e.len(),
            elems_view(elems@) == e.skip(i),
            outputs_view(out@) == o + filter_typed(e.take(i)),
        decreases elems.len(),
    {
        let ghost before = elems@;
        assert(elems_view(before).len() == before.len());
        let (props, range) = elems.remove(0);
        proof {
            assert(e.take(i + 1).drop_last() =~= e.take(i));
            assert(e[i] == elems_view(before)[0]);
            assert forall|j: int| 0 <= j < elems@.len() implies elems_view(elems@)[j] == e.skip(i + 1)[j] by {
                assert(elems@[j] == before[j + 1]);
                assert(e.skip(i)[j + 1] == elems_view(before)[j + 1]);
            }
            assert(elems_view(elems@) =~= e.skip(i + 1));
        }
        let ghost prev = out@;
        let (name, ty) = name_and_type_from_props(props);
        match (name, ty) {
            (Some(n), Some(t)) => {
                let x = Output { name: n, output_type: t, range };
                out.push(x);
                assert(outputs_view(out@) =~= outputs_view(prev).push(x@));
            },
            _ => {},
        }
        proof {
            i = i + 1;
        }
    }
    assert(e.take(i) =~= e);
}


/// Whether a parse result agrees with its mathematical form: a material
/// with its view, or an error with its message placed at the start.
pub open spec fn material_result_matches(r: Result<Material, ParseError>, s: Result<MaterialView, Seq<char>>) -> bool {
    match (r, s) {
        (Ok(m), Ok(v)) => m@ == v,
        (Err(e), Err(msg)) => e.message@ == msg && e.range == zero_range(),
        _ => false,
    }
}

/// Skipping to the first token of a class ends where the skipped tokens
/// are all of other classes and a token of that class, or the end, follows.
proof fn lemma_skip_to(toks: Seq<Token>, p: int, q: int, tt: TokenType)
    requires
        0 <= p <= q <= toks.len(),
        forall|k: int| p <= k < q ==> (#[trigger] toks[k]).token_type != tt,
        q < toks.len() ==> toks[q].token_type == tt,
    ensures
        spec_skip_to(toks, p, tt) == q,
    decreases q - p,
{
    if p < q {
        lemma_skip_to(toks, p + 1, q, tt);
    }
}

/// Reading a material at a block keyword moves past it.
proof fn lemma_skip_to_progress(toks: Seq<Token>, p: int)
    requires
        0 <= p < toks.len(),
        toks[p].token_type == TokenType::BlockKeyword,
    ensures
        p < spec_expect(toks, spec_skip_to(toks, p, TokenType::LCurly), TokenType::LCurly),
{
    assert(spec_skip_to(toks, p, TokenType::LCurly) == spec_skip_to(toks, p + 1, TokenType::LCurly));
    lemma_skip_to_ge(toks, p + 1, TokenType::LCurly);
}

proof fn lemma_skip_to_ge(toks: Seq<Token>, p: int, tt: TokenType)
    requires
        0 <= p <= toks.len(),
    ensures
        p <= spec_skip_to(toks, p, tt) <= toks.len(),
    decreases toks.len() - p,
{
    if p < toks.len() && toks[p].token_type != tt {
        lemma_skip_to_ge(toks, p + 1, tt);
    }
}

/// The view of a material after pushing one property.
proof fn lemma_push_property(props: Seq<(String, Located<Value>)>, e: (String, Located<Value>))
    ensures
        properties_view(props.push(e)) == properties_view(props).push((e.0@, value_view(e.1.value), e.1.range)),
{
    assert(properties_view(props.push(e)) =~= properties_view(props).push((e.0@, value_view(e.1.value), e.1.range)));
}

impl Parser {
    /// Reads the list of a `variables` property: each identifier item names
    /// a variable placed at the last token read.
    fn parse_variables_list(&mut self, vars: &mut Vec<Variable>, stuck: &mut bool)
        requires
            old(self).wf(),
        ensures
            *final(stuck) == (*old(stuck) || !value_clean(old(self).tokens@, old(self).pos as int, old(self).last_token)),
            final(self).wf(),
            final(self).tokens@ == old(self).tokens@,
            old(self).pos <= final(self).pos,
            ({
                let s = spec_value(old(self).tokens@, old(self).pos as int, old(self).last_token);
                &&& final(self).pos == s.1
                &&& final(self).last_token == s.2
                &&& vars_view(final(vars)@) == vars_view(old(vars)@) + spec_variables(s.0, s.2)
            }),
    {
        let v = self.parse_value(stuck);
        let range = match &self.last_token {
            Some(t) => Self::make_range(t, t),
            None => TextRange { start: TextPosition { line: 0, character: 0 }, end: TextPosition { line: 0, character: 0 } },
        };
        let ghost o = vars_view(vars@);
        assert(o + seq![] =~= o);
        match v {
            Some(Value::Array(arr)) => {
                let ghost orig = arr@;
                let mut arr = arr;
                let ghost mut i: int = 0;
                assert(orig.take(0) =~= seq![]);
                while arr.len() > 0
                    invariant
                        0 <= i <= orig.len(),
                        arr@ == orig.skip(i),
                        vars_view(vars@) == o + named_items(values_view(orig.take(i)), range),
                    decreases arr.len(),
                {
                    let ghost before = arr@;
                    let item = arr.remove(0);
                    proof {
                        assert(orig.take(i + 1).drop_last() =~= orig.take(i));
                        assert(before[0] == orig[i]);
                        assert(values_view(orig.take(i + 1)) == values_view(orig.take(i)).push(value_view(item)));
                    }
                    let ghost prevv = vars@;
                    let ghost iv = value_view(item);
                    let ghost vv0 = values_view(orig.take(i));
                    match item {
                        Value::Identifier(name) => {
                            let x = Variable { name, range };
                            vars.push(x);
                            assert(vars_view(vars@) =~= vars_view(prevv).push(x@));
                        },
                        _ => {},
                    }
                    proof {
                        let vv1 = vv0.push(iv);
                        assert(vv1.drop_last() =~= vv0);
                        i = i + 1;
                        assert(arr@ =~= orig.skip(i));
                    }
                }
                assert(orig.take(i) =~= orig);
            },
            _ => {},
        }
    }

    /// Reads a material block; `None` where the reading would make no
    /// progress (a structured array holding an element that is neither an
    /// object nor a comma).
    #[verifier::rlimit(60)]
    fn material_checked(&mut self) -> (r: Option<Result<Material, ParseError>>)
        requires
            old(self).wf(),
        ensures
            final(self).wf(),
            final(self).tokens@ == old(self).tokens@,
            old(self).pos <= final(self).pos,
            old(self).pos < old(self).tokens@.len() && old(self).tokens@[old(self).pos as int].token_type
                == TokenType::BlockKeyword ==> old(self).pos < final(self).pos,
            match spec_parse_material(old(self).tokens@, old(self).pos as int, old(self).last_token) {
                Some(s) => r is Some && material_result_matches(r.unwrap(), s.0) && final(self).pos == s.1
                    && final(self).last_token == s.2,
                None => r is None,
            },
    {
        let ghost toks = self.tokens@;
        let ghost p0 = self.pos as int;
        if self.pos >= self.tokens.len() {
            return Some(Err(ParseError::at_eof("material block")));
        }
        let start_token = self.tokens[self.pos].clone();
        self.skip_to(TokenType::LCurly);
        proof {
            lemma_skip_to(toks, p0, self.pos as int, TokenType::LCurly);
        }
        self.expect(TokenType::LCurly);
        let ghost kw = toks[p0].token_type == TokenType::BlockKeyword;
        proof {
            if kw {
                lemma_skip_to_progress(toks, p0);
            }
        }
        let mut m = Material {
            range: TextRange { start: Self::token_pos(&start_token), end: TextPosition { line: 0, character: 0 } },
            name: None,
            shading_model: None,
            properties: Vec::new(),
            parameters: Vec::new(),
            constants: Vec::new(),
            variables: Vec::new(),
            buffers: Vec::new(),
            subpasses: Vec::new(),
            outputs: Vec::new(),
        };
        assert(params_view(m.parameters@) =~= seq![]);
        assert(consts_view(m.constants@) =~= seq![]);
        assert(vars_view(m.variables@) =~= seq![]);
        assert(buffers_view(m.buffers@) =~= seq![]);
        assert(subpasses_view(m.subpasses@) =~= seq![]);
        assert(outputs_view(m.outputs@) =~= seq![]);
        assert(properties_view(m.properties@) =~= seq![]);
        assert(m@ == empty_material(m.range));
        let ghost goal = spec_material_body(toks, self.pos as int, self.last_token, m@);
        assert(spec_parse_material(toks, p0, old(self).last_token) == match goal {
            Some(r) => Some((Ok::<MaterialView, Seq<char>>(with_derived_fields(r.0)), r.1, r.2)),
            None => None,
        });
        while self.pos < self.tokens.len()
            invariant_except_break
                goal == spec_material_body(toks, self.pos as int, self.last_token, m@),
            invariant
                self.wf(),
                self.tokens@ == toks,
                toks == old(self).tokens@,
                p0 == old(self).pos,
                p0 <= self.pos,
                kw == (toks[p0].token_type == TokenType::BlockKeyword),
                kw ==> p0 < self.pos,
                m.name is None,
                m.shading_model is None,
                spec_parse_material(toks, p0, old(self).last_token) == match goal {
                    Some(r) => Some((Ok::<MaterialView, Seq<char>>(with_derived_fields(r.0)), r.1, r.2)),
                    None => None,
                },
            ensures
                goal == Some((m@, self.pos as int, self.last_token)),
            decreases toks.len() - self.pos,
        {
            let tt = self.tokens[self.pos].token_type;
            if tt == TokenType::RCurly {
                let end_token = self.next().unwrap();
                let c: u64 = end_token.column as u64 + 1;
                let ch: u32 = if c > u32::MAX as u64 { u32::MAX } else { c as u32 };
                m.range = TextRange { start: m.range.start, end: TextPosition { line: end_token.line, character: ch } };
                break;
            }
            let ghost q = self.pos as int;
            let ghost m0 = m@;
            let ghost last0 = self.last_token;
            if tt == TokenType::Identifier || tt == TokenType::BoolLiteral || tt == TokenType::NullLiteral {
                let key_token = self.next().unwrap();
                self.expect(TokenType::Colon);
                let key = key_token.value.as_str();
                if str_eq(key, "parameters") {
                    match self.parse_struct_array() {
                        Some(elems) => push_parameters(&mut m.parameters, elems),
                        None => {
                            proof {
                                assert(spec_material_body(toks, q, last0, m0) is None);
                                assert(goal is None);
                            }
                            return None;
                        },
                    }
                } else if str_eq(key, "constants") {
                    match self.parse_struct_array() {
                        Some(elems) => push_constants(&mut m.constants, elems),
                        None => {
                            proof {
                                assert(spec_material_body(toks, q, last0, m0) is None);
                                assert(goal is None);
                            }
                            return None;
                        },
                    }
                } else if str_eq(key, "variables") {
                    let mut stuck = false;
                    self.parse_variables_list(&mut m.variables, &mut stuck);
                    if stuck {
                        proof {
                            assert(spec_material_body(toks, q, last0, m0) is None);
                            assert(goal is None);
                        }
                        return None;
                    }
                } else if str_eq(key, "buffers") {
                    match self.parse_struct_array() {
                        Some(elems) => push_buffers(&mut m.buffers, elems),
                        None => {
                            proof {
                                assert(spec_material_body(toks, q, last0, m0) is None);
                                assert(goal is None);
                            }
                            return None;
                        },
                    }
                } else if str_eq(key, "subpasses") {
                    match self.parse_struct_array() {
                        Some(elems) => push_subpasses(&mut m.subpasses, elems),
                        None => {
                            proof {
                                assert(spec_material_body(toks, q, last0, m0) is None);
                                assert(goal is None);
                            }
                            return None;
                        },
                    }
                } else if str_eq(key, "outputs") {
                    match self.parse_struct_array() {
                        Some(elems) => push_outputs(&mut m.outputs, elems),
                        None => {
                            proof {
                                assert(spec_material_body(toks, q, last0, m0) is None);
                                assert(goal is None);
                            }
                            return None;
                        },
                    }
                } else {
                    let mut stuck = false;
                    let v = self.parse_value(&mut stuck);
                    if stuck {
                        proof {
                            assert(spec_material_body(toks, q, last0, m0) is None);
                            assert(goal is None);
                        }
                        return None;
                    }
                    match v {
                        Some(v) => {
                            let end_tok = match &self.last_token {
                                Some(t) => t.clone(),
                                None => key_token.clone(),
                            };
                            let range = Self::make_range(&key_token, &end_tok);
                            let ghost props0 = m.properties@;
                            let e = (key_token.value, Located::new(v, range));
                            proof {
                                lemma_push_property(props0, e);
                            }
                            m.properties.push(e);
                        },
                        None => {},
                    }
                }
                assert(q < self.pos);
            } else {
                self.next();
            }
        }
        let mut i: usize = 0;
        let ghost pv = properties_view(m.properties@);
        let ghost m_after = m@;
        assert(pv.take(0) =~= seq![]);
        while i < m.properties.len()
            invariant
                i <= m.properties@.len(),
                pv == properties_view(m.properties@),
                m_after.name is None,
                m_after.shading_model is None,
                m@ == (MaterialView {
                    name: located_string_view(m.name),
                    shading_model: located_string_view(m.shading_model),
                    ..m_after
                }),
                located_string_view(m.name) == last_prop(pv.take(i as int), "name"@, true),
                located_string_view(m.shading_model) == last_prop(pv.take(i as int), "shadingModel"@, false),
            decreases m.properties.len() - i,
        {
            let ghost pv0 = pv.take(i as int);
            proof {
                reveal_strlit("name");
                reveal_strlit("shadingModel");
                assert(pv.take(i + 1).drop_last() =~= pv0);
                assert(pv.take(i + 1).last() == pv[i as int]);
                assert(pv[i as int] == (m.properties@[i as int].0@, value_view(m.properties@[i as int].1.value),
                    m.properties@[i as int].1.range));
            }
            let k = m.properties[i].0.as_str();
            let is_name = str_eq(k, "name");
            let is_model = str_eq(k, "shadingModel");
            let cand: Option<String> = match &m.properties[i].1.value {
                Value::Identifier(x) => Some(x.clone()),
                Value::String(x) => if is_name { Some(x.clone()) } else { None },
                _ => None,
            };
            let range = m.properties[i].1.range;
            proof {
                let e = pv[i as int];
                if is_name {
                    assert(cand.is_some() == ident_or_string_of(e.1).is_some());
                    assert(cand is Some ==> cand.unwrap()@ == ident_or_string_of(e.1).unwrap());
                } else if is_model {
                    assert(cand.is_some() == ident_of(e.1).is_some());
                    assert(cand is Some ==> cand.unwrap()@ == ident_of(e.1).unwrap());
                }
                assert(range == e.2);
            }
            let ghost name0 = located_string_view(m.name);
            let ghost model0 = located_string_view(m.shading_model);
            let ghost cand_v: Option<Seq<char>> = match &cand { Some(x) => Some(x@), None => None };
            if is_name {
                match cand {
                    Some(x) => {
                        m.name = Some(Located::new(x, range));
                    },
                    None => {},
                }
            } else if is_model {
                match cand {
                    Some(x) => {
                        m.shading_model = Some(Located::new(x, range));
                    },
                    None => {},
                }
            }
            assert(located_string_view(m.name) == (if is_name && cand_v is Some { Some((cand_v.unwrap(), range)) } else { name0 }));
            proof {
                let e = pv[i as int];
                assert(e.0 == "name"@ <==> is_name);
                assert(e.0 == "shadingModel"@ <==> is_model);
                assert("name"@.len() == 4 && "shadingModel"@.len() == 12);
                assert(!(is_name && is_model));
                assert(located_string_view(m.shading_model) == (if !is_name && is_model && cand_v is Some { Some((cand_v.unwrap(), range)) } else { model0 }));
                assert(last_prop(pv.take(i + 1), "name"@, true) == (if e.0 == "name"@ && ident_or_string_of(e.1) is Some {
                    Some((ident_or_string_of(e.1).unwrap(), e.2))
                } else {
                    last_prop(pv0, "name"@, true)
                }));
                assert(last_prop(pv.take(i + 1), "shadingModel"@, false) == (if e.0 == "shadingModel"@ && ident_of(e.1) is Some {
                    Some((ident_of(e.1).unwrap(), e.2))
                } else {
                    last_prop(pv0, "shadingModel"@, false)
                }));
            }
            i = i + 1;
        }
        assert(pv.take(i as int) =~= pv);
        Some(Ok(m))
    }
}

pub struct ShaderBlockView {
    pub block_type: ShaderBlockType,
    pub code: Seq<char>,
    pub range: TextRange,
    pub symbols: Seq<SymbolView>,
}

impl View for ShaderBlock {
    type V = ShaderBlockView;

    open spec fn view(&self) -> ShaderBlockView {
        ShaderBlockView { block_type: self.block_type, code: self.code@, range: self.range, symbols: symbols_view(self.symbols@) }
    }
}

pub open spec fn shaders_view(s: Seq<ShaderBlock>) -> Seq<ShaderBlockView> {
    s.map_values(|b: ShaderBlock| b@)
}

/// A parse error as its message and range.
pub open spec fn error_view(e: ParseError) -> (Seq<char>, TextRange) {
    (e.message@, e.range)
}

pub open spec fn errors_view(s: Seq<ParseError>) -> Seq<(Seq<char>, TextRange)> {
    s.map_values(|e: ParseError| error_view(e))
}

pub struct MatFileView {
    pub material: MaterialView,
    pub shaders: Seq<ShaderBlockView>,
    pub errors: Seq<(Seq<char>, TextRange)>,
}

impl View for MatFile {
    type V = MatFileView;

    open spec fn view(&self) -> MatFileView {
        MatFileView { material: self.material@, shaders: shaders_view(self.shaders@), errors: errors_view(self.errors@) }
    }
}

pub open spec fn opt_material_view(m: Option<Material>) -> Option<MaterialView> {
    match m {
        Some(x) => Some(x@),
        None => None,
    }
}

/// The code of a shader block from token `p` with brace depth `depth`, and
/// the closing brace; `None` (and the end) when the tokens end first.
pub open spec fn spec_shader_body(toks: Seq<Token>, p: int, depth: int, code: Seq<char>, last_line: u32) -> (Option<(Seq<char>, Token)>, int)
    decreases toks.len() - p,
{
    if p < 0 || p >= toks.len() {
        (None, p)
    } else {
        let t = toks[p];
        match t.token_type {
            TokenType::LCurly => spec_shader_body(toks, p + 1, depth + 1, code.push('{'), t.line),
            TokenType::RCurly => if depth == 1 {
                (Some((code, t)), p + 1)
            } else {
                spec_shader_body(toks, p + 1, depth - 1, code.push('}'), t.line)
            },
            TokenType::GlslCode | TokenType::Comment => {
                let c1 = if code.len() > 0 { code.push('\n') } else { code };
                spec_shader_body(toks, p + 1, depth, c1 + t.value@, t.line)
            },
            _ => {
                let c1 = if code.len() > 0 && last_line != t.line { code.push('\n') } else { code };
                spec_shader_body(toks, p + 1, depth, c1 + t.value@, t.line)
            },
        }
    }
}

pub open spec fn block_type_of(w: Seq<char>) -> Option<ShaderBlockType> {
    if w == "vertex"@ {
        Some(ShaderBlockType::Vertex)
    } else if w == "fragment"@ {
        Some(ShaderBlockType::Fragment)
    } else if w == "compute"@ {
        Some(ShaderBlockType::Compute)
    } else if w == "tool"@ {
        Some(ShaderBlockType::Tool)
    } else {
        None
    }
}

/// Reading a shader block at token `p`: the block or an error, and the next
/// position. `None` where the symbol scan of its code cannot read a line.
pub open spec fn spec_shader_block(toks: Seq<Token>, p: int) -> Option<(Result<ShaderBlockView, (Seq<char>, TextRange)>, int)> {
    if p < 0 || p >= toks.len() {
        Some((Err((eof_message("shader block keyword"@), zero_range())), p))
    } else {
        let start = toks[p];
        match block_type_of(start.value@) {
            None => Some((Err(("Expected shader block keyword (vertex/fragment/compute/tool)"@, token_range(start))), p + 1)),
            Some(bt) => if p + 1 < toks.len() && toks[p + 1].token_type != TokenType::LCurly {
                Some((Err(("Expected '{' after shader block keyword"@, token_range(start))), p + 1))
            } else {
                let q = if p + 1 < toks.len() { p + 2 } else { p + 1 };
                let body = spec_shader_body(toks, q, 1, seq![], start.line);
                match body.0 {
                    None => Some((Err((eof_message("closing brace for shader block"@), zero_range())), body.1)),
                    Some((code, end)) => {
                        let code = trim_chars(code);
                        if !lines_ok(code, 0) || utf8_len(code) >= usize::MAX {
                            None
                        } else {
                            let range = TextRange {
                                start: TextPosition { line: start.line, character: start.column },
                                end: TextPosition { line: end.line, character: sat_col(end.column + 1) },
                            };
                            Some((Ok(ShaderBlockView { block_type: bt, code, range, symbols: code_symbols(code) }), body.1))
                        }
                    },
                }
            },
        }
    }
}

/// Skipping a block from token `p` at brace depth `depth`, up to and
/// including the brace that closes it.
pub open spec fn spec_skip_block(toks: Seq<Token>, p: int, depth: int) -> int
    decreases toks.len() - p,
{
    if p < 0 || p >= toks.len() {
        p
    } else if toks[p].token_type == TokenType::LCurly {
        spec_skip_block(toks, p + 1, depth + 1)
    } else if toks[p].token_type == TokenType::RCurly {
        if depth <= 1 { p + 1 } else { spec_skip_block(toks, p + 1, depth - 1) }
    } else {
        spec_skip_block(toks, p + 1, depth)
    }
}

/// The state of a whole-file parse: the material found so far, the shader
/// blocks and the errors.
pub type TopState = (Option<MaterialView>, Seq<ShaderBlockView>, Seq<(Seq<char>, TextRange)>);

pub open spec fn top_message(v: Seq<char>) -> Seq<char> {
    "Unexpected token at top level: "@ + v
}

/// One step of the whole-file parse at token `p`: the new state, position
/// and last token; `None` where parsing would never come to an end.
pub open spec fn spec_top_step(toks: Seq<Token>, p: int, last: Option<Token>, st: TopState) -> Option<(TopState, int, Option<Token>)> {
    let t = toks[p];
    match t.token_type {
        TokenType::BlockKeyword => if t.value@ == "material"@ {
            if st.0 is Some {
                let errs = st.2.push(("Multiple material blocks are not allowed"@, token_range(t)));
                Some(((st.0, st.1, errs), spec_skip_block(toks, p, 0), last))
            } else {
                match spec_parse_material(toks, p, last) {
                    None => None,
                    Some((Ok(m), q, l)) => Some(((Some(m), st.1, st.2), q, l)),
                    Some((Err(msg), q, l)) => Some(((st.0, st.1, st.2.push((msg, zero_range()))), spec_skip_block(toks, q, 0), l)),
                }
            }
        } else {
            match spec_shader_block(toks, p) {
                None => None,
                Some((Ok(b), q)) => Some(((st.0, st.1.push(b), st.2), q, last)),
                Some((Err(e), q)) => Some(((st.0, st.1, st.2.push(e)), spec_skip_block(toks, q, 0), last)),
            }
        },
        TokenType::Comment => Some((st, p + 1, last)),
        _ => Some(((st.0, st.1, st.2.push((top_message(t.value@), token_range(t)))), spec_skip_to(toks, p + 1, TokenType::BlockKeyword), last)),
    }
}

/// The whole-file parse from token `p`; `None` where parsing would never
/// come to an end.
pub open spec fn spec_parse_top(toks: Seq<Token>, p: int, last: Option<Token>, st: TopState) -> Option<TopState>
    decreases toks.len() - p,
{
    if p < 0 || p >= toks.len() {
        Some(st)
    } else {
        match spec_top_step(toks, p, last, st) {
            None => None,
            Some((st2, q, l)) => if q <= p || q > toks.len() {
                Some(st2)
            } else {
                spec_parse_top(toks, q, l, st2)
            },
        }
    }
}

/// The syntax tree of a file from its tokens; `None` where parsing would
/// never come to an end.
pub open spec fn spec_parse(toks: Seq<Token>) -> Option<MatFileView> {
    match spec_parse_top(toks, 0, None, (None, seq![], seq![])) {
        None => None,
        Some(st) => Some(MatFileView {
            material: match st.0 {
                Some(m) => m,
                None => empty_material(zero_range()),
            },
            shaders: st.1,
            errors: st.2,
        }),
    }
}


/// A skip of a block ends after the brace that closes it, or at the end.
proof fn lemma_skip_block_progress(toks: Seq<Token>, p: int, depth: int)
    requires
        0 <= p < toks.len(),
    ensures
        p < spec_skip_block(toks, p, depth) <= toks.len(),
    decreases toks.len() - p,
{
    let d2 = if toks[p].token_type == TokenType::LCurly { depth + 1 } else { depth - 1 };
    if p + 1 < toks.len() {
        lemma_skip_block_progress(toks, p + 1, d2);
        lemma_skip_block_progress(toks, p + 1, depth);
    } else {
        assert(spec_skip_block(toks, p + 1, d2) == p + 1);
        assert(spec_skip_block(toks, p + 1, depth) == p + 1);
    }
}

impl Parser {
    /// Skips tokens up to and including the `}` that closes the current block.
    fn skip_block(&mut self)
        requires
            old(self).wf(),
        ensures
            final(self).wf(),
            final(self).tokens@ == old(self).tokens@,
            final(self).last_token == old(self).last_token,
            final(self).pos == spec_skip_block(old(self).tokens@, old(self).pos as int, 0),
    {
        let ghost toks = self.tokens@;
        let mut depth: usize = 0;
        let ghost goal = spec_skip_block(toks, self.pos as int, 0);
        while self.pos < self.tokens.len()
            invariant_except_break
                goal == spec_skip_block(toks, self.pos as int, depth as int),
            invariant
                self.wf(),
                self.tokens@ == toks,
                toks == old(self).tokens@,
                self.last_token == old(self).last_token,
                depth <= self.pos,
            ensures
                goal == self.pos,
            decreases toks.len() - self.pos,
        {
            let tt = self.tokens[self.pos].token_type;
            if tt == TokenType::LCurly {
                depth = depth + 1;
                self.pos = self.pos + 1;
            } else if tt == TokenType::RCurly {
                if depth <= 1 {
                    self.pos = self.pos + 1;
                    break;
                }
                depth = depth - 1;
                self.pos = self.pos + 1;
            } else {
                self.pos = self.pos + 1;
            }
        }
    }

    /// Reads a shader block; `None` where the symbol scan of its code cannot
    /// read a line, or the code is too long to count its bytes.
    fn shader_block_checked(&mut self) -> (r: Option<Result<ShaderBlock, ParseError>>)
        requires
            old(self).wf(),
        ensures
            final(self).wf(),
            final(self).tokens@ == old(self).tokens@,
            final(self).last_token == old(self).last_token,
            old(self).pos <= final(self).pos,
            old(self).pos < old(self).tokens@.len() ==> old(self).pos < final(self).pos,
            match spec_shader_block(old(self).tokens@, old(self).pos as int) {
                None => r is None,
                Some((res, q)) => r is Some && final(self).pos == q && match (r.unwrap(), res) {
                    (Ok(b), Ok(bv)) => b@ == bv,
                    (Err(e), Err(ev)) => error_view(e) == ev,
                    _ => false,
                },
            },
    {
        let ghost toks = self.tokens@;
        let ghost p0 = self.pos as int;
        let start = match self.next() {
            Some(t) => t,
            None => return Some(Err(ParseError::at_eof("shader block keyword"))),
        };
        let v = start.value.as_str();
        let bt = if str_eq(v, "vertex") {
            ShaderBlockType::Vertex
        } else if str_eq(v, "fragment") {
            ShaderBlockType::Fragment
        } else if str_eq(v, "compute") {
            ShaderBlockType::Compute
        } else if str_eq(v, "tool") {
            ShaderBlockType::Tool
        } else {
            return Some(Err(ParseError::at_token(
                to_owned_string("Expected shader block keyword (vertex/fragment/compute/tool)"),
                &start,
            )));
        };
        if self.pos < self.tokens.len() && self.tokens[self.pos].token_type != TokenType::LCurly {
            return Some(Err(ParseError::at_token(to_owned_string("Expected '{' after shader block keyword"), &start)));
        }
        self.next();
        let mut code: Vec<char> = Vec::new();
        let mut depth: usize = 1;
        let mut last_line = start.line;
        let ghost goal = spec_shader_body(toks, self.pos as int, 1, seq![], start.line);
        assert(code@ =~= seq![]);
        while self.pos < self.tokens.len()
            invariant
                self.wf(),
                self.tokens@ == toks,
                toks == old(self).tokens@,
                self.last_token == old(self).last_token,
                p0 == old(self).pos,
                p0 < self.pos,
                1 <= depth <= self.pos,
                goal == spec_shader_body(toks, self.pos as int, depth as int, code@, last_line),
                start == toks[p0],
                block_type_of(start.value@) == Some(bt),
                (p0 + 1 < toks.len() ==> toks[p0 + 1].token_type == TokenType::LCurly),
                goal == spec_shader_body(toks, if p0 + 1 < toks.len() { p0 + 2 } else { p0 + 1 }, 1, seq![], start.line),
            decreases toks.len() - self.pos,
        {
            let tt = self.tokens[self.pos].token_type;
            let line = self.tokens[self.pos].line;
            if tt == TokenType::LCurly {
                depth = depth + 1;
                code.push('{');
                last_line = line;
                self.pos = self.pos + 1;
            } else if tt == TokenType::RCurly {
                if depth == 1 {
                    let end_token = self.next().unwrap();
                    let c: u64 = end_token.column as u64 + 1;
                    let ch: u32 = if c > u32::MAX as u64 { u32::MAX } else { c as u32 };
                    let range = TextRange {
                        start: TextPosition { line: start.line, character: start.column },
                        end: TextPosition { line: end_token.line, character: ch },
                    };
                    let trimmed = trim_exec(code.as_slice());
                    if !utf8_len_below_max(trimmed.as_slice()) {
                        return None;
                    }
                    let code_str = chars_to_string(trimmed.as_slice());
                    if !symbols_scan_ok(code_str.as_str()) {
                        return None;
                    }
                    let mut block = ShaderBlock { block_type: bt, code: code_str, range, symbols: Vec::new() };
                    let symbols = extract_symbols(&block);
                    block.symbols = symbols;
                    return Some(Ok(block));
                } else {
                    depth = depth - 1;
                    code.push('}');
                    last_line = line;
                    self.pos = self.pos + 1;
                }
            } else if tt == TokenType::GlslCode || tt == TokenType::Comment {
                if code.len() > 0 {
                    code.push('\n');
                }
                push_str_chars(&mut code, self.tokens[self.pos].value.as_str());
                last_line = line;
                self.pos = self.pos + 1;
            } else {
                if code.len() > 0 && last_line != line {
                    code.push('\n');
                }
                push_str_chars(&mut code, self.tokens[self.pos].value.as_str());
                last_line = line;
                self.pos = self.pos + 1;
            }
        }
        Some(Err(ParseError::at_eof("closing brace for shader block")))
    }

    /// Reads a material block at the current token. The reading must come to
    /// an end (a structured array must not hold an element that is neither
    /// an object nor a comma) and read no lone-quote string literal as a
    /// value.
    pub fn parse_material(&mut self) -> (r: Result<Material, ParseError>)
        requires
            old(self).wf(),
            spec_parse_material(old(self).tokens(), old(self).position(), old(self).last()) is Some,
        ensures
            final(self).wf(),
            final(self).tokens() == old(self).tokens(),
            ({
                let s = spec_parse_material(old(self).tokens(), old(self).position(), old(self).last()).unwrap();
                &&& material_result_matches(r, s.0)
                &&& final(self).position() == s.1
                &&& final(self).last() == s.2
            }),
    {
        match self.material_checked() {
            Some(r) => r,
            None => Err(ParseError::at_eof("material block")),
        }
    }

    /// Parses the whole file; `None` where parsing would never come to an end.
    #[verifier::rlimit(60)]
    fn parse_checked(&mut self) -> (r: Option<MatFile>)
        requires
            old(self).wf(),
            old(self).pos == 0,
            old(self).last_token is None,
        ensures
            match spec_parse(old(self).tokens@) {
                None => r is None,
                Some(v) => r is Some && r.unwrap()@ == v,
            },
    {
        let ghost toks = self.tokens@;
        let mut material: Option<Material> = None;
        let mut shaders: Vec<ShaderBlock> = Vec::new();
        let mut errors: Vec<ParseError> = Vec::new();
        let ghost goal = spec_parse_top(toks, 0, None, (None, seq![], seq![]));
        assert(shaders_view(shaders@) =~= seq![]);
        assert(errors_view(errors@) =~= seq![]);
        while self.pos < self.tokens.len()
            invariant_except_break
                goal == spec_parse_top(toks, self.pos as int, self.last_token, (
                    opt_material_view(material),
                    shaders_view(shaders@),
                    errors_view(errors@),
                )),
            invariant
                self.wf(),
                self.tokens@ == toks,
                toks == old(self).tokens@,
                goal == spec_parse_top(toks, 0, None, (None, seq![], seq![])),
            ensures
                goal == Some((
                    opt_material_view(material),
                    shaders_view(shaders@),
                    errors_view(errors@),
                )),
            decreases toks.len() - self.pos,
        {
            let ghost p = self.pos as int;
            let ghost errs0 = errors@;
            let ghost shaders0 = shaders@;
            let ghost st0 = (opt_material_view(material), shaders_view(shaders@), errors_view(errors@));
            let ghost last0 = self.last_token;
            let tt = self.tokens[self.pos].token_type;
            if tt == TokenType::BlockKeyword {
                if str_eq(self.tokens[self.pos].value.as_str(), "material") {
                    if material.is_some() {
                        let e = ParseError::at_token(
                            to_owned_string("Multiple material blocks are not allowed"),
                            &self.tokens[self.pos],
                        );
                        errors.push(e);
                        assert(errors_view(errors@) =~= errors_view(errs0).push(error_view(e)));
                        self.skip_block();
                        proof { lemma_skip_block_progress(toks, p, 0); }
                    } else {
                        match self.material_checked() {
                            None => {
                                assert(spec_top_step(toks, p, last0, st0) is None);
                                assert(goal is None);
                                return None;
                            },
                            Some(Ok(m)) => {
                                material = Some(m);
                            },
                            Some(Err(e)) => {
                                errors.push(e);
                                assert(errors_view(errors@) =~= errors_view(errs0).push(error_view(e)));
                                self.skip_block();
                            },
                        }
                        assert(p < self.pos);
                    }
                } else {
                    match self.shader_block_checked() {
                        None => {
                            assert(spec_top_step(toks, p, last0, st0) is None);
                            assert(goal is None);
                            return None;
                        },
                        Some(Ok(b)) => {
                            shaders.push(b);
                            assert(shaders_view(shaders@) =~= shaders_view(shaders0).push(b@));
                        },
                        Some(Err(e)) => {
                            errors.push(e);
                            assert(errors_view(errors@) =~= errors_view(errs0).push(error_view(e)));
                            let ghost q = self.pos as int;
                            self.skip_block();
                            proof {
                                if q < toks.len() {
                                    lemma_skip_block_progress(toks, q, 0);
                                }
                            }
                        },
                    }
                }
            } else if tt == TokenType::Comment {
                self.next();
            } else {
                let bad = self.next().unwrap();
                let mut m = to_owned_string("Unexpected token at top level: ");
                string_push_str(&mut m, bad.value.as_str());
                let e = ParseError::at_token(m, &bad);
                errors.push(e);
                assert(errors_view(errors@) =~= errors_view(errs0).push(error_view(e)));
                self.skip_to(TokenType::BlockKeyword);
                proof {
                    lemma_skip_to(toks, p + 1, self.pos as int, TokenType::BlockKeyword);
                }
            }
            assert(p < self.pos);
        }
        let material = match material {
            Some(m) => m,
            None => Material {
                range: TextRange { start: TextPosition { line: 0, character: 0 }, end: TextPosition { line: 0, character: 0 } },
                name: None,
                shading_model: None,
                properties: Vec::new(),
                parameters: Vec::new(),
                constants: Vec::new(),
                variables: Vec::new(),
                buffers: Vec::new(),
                subpasses: Vec::new(),
                outputs: Vec::new(),
            },
        };
        proof {
            assert(params_view(Seq::<Parameter>::empty()) =~= seq![]);
            assert(consts_view(Seq::<Constant>::empty()) =~= seq![]);
            assert(vars_view(Seq::<Variable>::empty()) =~= seq![]);
            assert(buffers_view(Seq::<Buffer>::empty()) =~= seq![]);
            assert(subpasses_view(Seq::<Subpass>::empty()) =~= seq![]);
            assert(outputs_view(Seq::<Output>::empty()) =~= seq![]);
            assert(properties_view(Seq::<(String, Located<Value>)>::empty()) =~= seq![]);
        }
        Some(MatFile { material, shaders, errors })
    }

    /// Parses a complete `.mat` file from the tokens, recovering from
    /// errors. The parse must come to an end (see `parse_material`) and no
    /// shader block's code may make the symbol scan cut a character.
    pub fn parse(&mut self) -> (r: MatFile)
        requires
            old(self).wf(),
            old(self).position() == 0,
            old(self).last() is None,
            spec_parse(old(self).tokens()) is Some,
        ensures
            r@ == spec_parse(old(self).tokens()).unwrap(),
    {
        match self.parse_checked() {
            Some(f) => f,
            None => MatFile {
                material: Material {
                    range: TextRange { start: TextPosition { line: 0, character: 0 }, end: TextPosition { line: 0, character: 0 } },
                    name: None,
                    shading_model: None,
                    properties: Vec::new(),
                    parameters: Vec::new(),
                    constants: Vec::new(),
                    variables: Vec::new(),
                    buffers: Vec::new(),
                    subpasses: Vec::new(),
                    outputs: Vec::new(),
                },
                shaders: Vec::new(),
                errors: Vec::new(),
            },
        }
    }
}

/// Parses a `.mat` file from its tokens: `None` exactly where the parse
/// would not return (a lone-quote string literal read as a value, a
/// structured array that makes no progress, or shader code that the symbol
/// scan cannot read), else the syntax tree.
pub fn parse_tokens(tokens: Vec<Token>) -> (r: Option<MatFile>)
    ensures
        match spec_parse(tokens@) {
            None => r is None,
            Some(v) => r is Some && r.unwrap()@ == v,
        },
{
    let mut p = Parser::new(tokens);
    p.parse_checked()
}


/// The material block parsed from the start of a token list; `None` where
/// the parser cannot take the tokens (see `parse_tokens`) or would never
/// come to the material's end.
pub fn parse_material_tokens(tokens: Vec<Token>) -> (r: Option<Result<Material, ParseError>>)
    ensures
        match spec_parse_material(tokens@, 0, None) {
            Some(s) => r is Some && material_result_matches(r.unwrap(), s.0),
            None => r is None,
        },
{
    let mut p = Parser::new(tokens);
    p.material_checked()
}

/// A copy of a value.
pub fn clone_value(v: &Value) -> (r: Value)
    ensures
        value_view(r) == value_view(*v),
    decreases v,
{
    match v {
        Value::String(s) => Value::String(s.clone()),
        Value::Number(s) => Value::Number(s.clone()),
        Value::Bool(b) => Value::Bool(*b),
        Value::Array(a) => {
            let mut out: Vec<Value> = Vec::new();
            let mut i: usize = 0;
            assert(a@.take(0) =~= Seq::<Value>::empty());
            while i < a.len()
                invariant
                    i <= a@.len(),
                    *v == Value::Array(*a),
                    values_view(out@) == values_view(a@.take(i as int)),
                decreases a.len() - i,
            {
                assert(*a == (*v)->Array_0);
                assert(decreases_to!(*v => (*v)->Array_0));
                assert(decreases_to!(*a => a@));
                assert(decreases_to!(a@ => a@[i as int]));
                assert(decreases_to!(*v => a@[i as int]));
                let x = clone_value(&a[i]);
                let ghost prev = out@;
                out.push(x);
                assert(out@.drop_last() == prev);
                assert(a@.take(i + 1).drop_last() =~= a@.take(i as int));
                i = i + 1;
            }
            assert(a@.take(i as int) =~= a@);
            Value::Array(out)
        },
        Value::Object(o) => Value::Object(clone_entries(o)),
        Value::Identifier(s) => Value::Identifier(s.clone()),
        Value::Null => Value::Null,
    }
}

/// A copy of a list of named values.
pub fn clone_entries(o: &Vec<(String, Value)>) -> (r: Vec<(String, Value)>)
    ensures
        entries_view(r@) == entries_view(o@),
    decreases o,
{
    let mut out: Vec<(String, Value)> = Vec::new();
    let mut i: usize = 0;
    assert(o@.take(0) =~= Seq::<(String, Value)>::empty());
    while i < o.len()
        invariant
            i <= o@.len(),
            entries_view(out@) == entries_view(o@.take(i as int)),
            decreases_to!(*o => o@),
        decreases o.len() - i,
    {
        assert(decreases_to!(o => o@[i as int].1));
        let x = clone_value(&o[i].1);
        let ghost prev = out@;
        out.push((o[i].0.clone(), x));
        assert(out@.drop_last() == prev);
        assert(o@.take(i + 1).drop_last() =~= o@.take(i as int));
        i = i + 1;
    }
    assert(o@.take(i as int) =~= o@);
    out
}

/// A copy of a material.
pub fn clone_material(m: &Material) -> (r: Material)
    ensures
        r@ == m@,
{
    let name = match &m.name {
        Some(l) => Some(Located::new(l.value.clone(), l.range)),
        None => None,
    };
    let shading_model = match &m.shading_model {
        Some(l) => Some(Located::new(l.value.clone(), l.range)),
        None => None,
    };
    let mut properties: Vec<(String, Located<Value>)> = Vec::new();
    let mut i: usize = 0;
    while i < m.properties.len()
        invariant
            i <= m.properties@.len(),
            properties_view(properties@) == properties_view(m.properties@.take(i as int)),
        decreases m.properties.len() - i,
    {
        let e = &m.properties[i];
        let x = (e.0.clone(), Located::new(clone_value(&e.1.value), e.1.range));
        let ghost prev = properties@;
        properties.push(x);
        assert(properties_view(properties@) =~= properties_view(prev).push((x.0@, value_view(x.1.value), x.1.range)));
        assert(properties_view(m.properties@.take(i + 1)) =~= properties_view(m.properties@.take(i as int)).push(
            (e.0@, value_view(e.1.value), e.1.range)));
        i = i + 1;
    }
    assert(m.properties@.take(i as int) =~= m.properties@);
    let mut parameters: Vec<Parameter> = Vec::new();
    let mut j: usize = 0;
    while j < m.parameters.len()
        invariant
            j <= m.parameters@.len(),
            params_view(parameters@) == params_view(m.parameters@.take(j as int)),
        decreases m.parameters.len() - j,
    {
        let p = &m.parameters[j];
        let x = Parameter { param_type: p.param_type.clone(), name: p.name.clone(), other_fields: clone_entries(&p.other_fields), range: p.range };
        let ghost prev = parameters@;
        parameters.push(x);
        assert(params_view(parameters@) =~= params_view(prev).push(x@));
        assert(params_view(m.parameters@.take(j + 1)) =~= params_view(m.parameters@.take(j as int)).push(p@));
        j = j + 1;
    }
    assert(m.parameters@.take(j as int) =~= m.parameters@);
    let mut constants: Vec<Constant> = Vec::new();
    let mut k: usize = 0;
    while k < m.constants.len()
        invariant
            k <= m.constants@.len(),
            consts_view(constants@) == consts_view(m.constants@.take(k as int)),
        decreases m.constants.len() - k,
    {
        let c = &m.constants[k];
        let dv = match &c.default_value {
            Some(v) => Some(clone_value(v)),
            None => None,
        };
        let x = Constant { name: c.name.clone(), const_type: c.const_type.clone(), default_value: dv, range: c.range };
        let ghost prev = constants@;
        constants.push(x);
        assert(consts_view(constants@) =~= consts_view(prev).push(x@));
        assert(consts_view(m.constants@.take(k + 1)) =~= consts_view(m.constants@.take(k as int)).push(c@));
        k = k + 1;
    }
    assert(m.constants@.take(k as int) =~= m.constants@);
    let mut variables: Vec<Variable> = Vec::new();
    let mut a: usize = 0;
    while a < m.variables.len()
        invariant
            a <= m.variables@.len(),
            vars_view(variables@) == vars_view(m.variables@.take(a as int)),
        decreases m.variables.len() - a,
    {
        let x = Variable { name: m.variables[a].name.clone(), range: m.variables[a].range };
        let ghost prev = variables@;
        variables.push(x);
        assert(vars_view(variables@) =~= vars_view(prev).push(x@));
        assert(vars_view(m.variables@.take(a + 1)) =~= vars_view(m.variables@.take(a as int)).push(m.variables@[a as int]@));
        a = a + 1;
    }
    assert(m.variables@.take(a as int) =~= m.variables@);
    let mut buffers: Vec<Buffer> = Vec::new();
    let mut b: usize = 0;
    while b < m.buffers.len()
        invariant
            b <= m.buffers@.len(),
            buffers_view(buffers@) == buffers_view(m.buffers@.take(b as int)),
        decreases m.buffers.len() - b,
    {
        let x = Buffer { name: m.buffers[b].name.clone(), range: m.buffers[b].range };
        let ghost prev = buffers@;
        buffers.push(x);
        assert(buffers_view(buffers@) =~= buffers_view(prev).push(x@));
        assert(buffers_view(m.buffers@.take(b + 1)) =~= buffers_view(m.buffers@.take(b as int)).push(m.buffers@[b as int]@));
        b = b + 1;
    }
    assert(m.buffers@.take(b as int) =~= m.buffers@);
    let mut subpasses: Vec<Subpass> = Vec::new();
    let mut c: usize = 0;
    while c < m.subpasses.len()
        invariant
            c <= m.subpasses@.len(),
            subpasses_view(subpasses@) == subpasses_view(m.subpasses@.take(c as int)),
        decreases m.subpasses.len() - c,
    {
        let x = Subpass { name: m.subpasses[c].name.clone(), subpass_type: m.subpasses[c].subpass_type.clone(), range: m.subpasses[c].range };
        let ghost prev = subpasses@;
        subpasses.push(x);
        assert(subpasses_view(subpasses@) =~= subpasses_view(prev).push(x@));
        assert(subpasses_view(m.subpasses@.take(c + 1)) =~= subpasses_view(m.subpasses@.take(c as int)).push(m.subpasses@[c as int]@));
        c = c + 1;
    }
    assert(m.subpasses@.take(c as int) =~= m.subpasses@);
    let mut outputs: Vec<Output> = Vec::new();
    let mut d: usize = 0;
    while d < m.outputs.len()
        invariant
            d <= m.outputs@.len(),
            outputs_view(outputs@) == outputs_view(m.outputs@.take(d as int)),
        decreases m.outputs.len() - d,
    {
        let x = Output { name: m.outputs[d].name.clone(), output_type: m.outputs[d].output_type.clone(), range: m.outputs[d].range };
        let ghost prev = outputs@;
        outputs.push(x);
        assert(outputs_view(outputs@) =~= outputs_view(prev).push(x@));
        assert(outputs_view(m.outputs@.take(d + 1)) =~= outputs_view(m.outputs@.take(d as int)).push(m.outputs@[d as int]@));
        d = d + 1;
    }
    assert(m.outputs@.take(d as int) =~= m.outputs@);
    Material {
        range: m.range,
        name,
        shading_model,
        properties,
        parameters,
        constants,
        variables,
        buffers,
        subpasses,
        outputs,
    }
}

/// A copy of a parsed file.
pub fn clone_matfile(f: &MatFile) -> (r: MatFile)
    ensures
        r@ == f@,
{
    let material = clone_material(&f.material);
    let mut shaders: Vec<ShaderBlock> = Vec::new();
    let mut i: usize = 0;
    while i < f.shaders.len()
        invariant
            i <= f.shaders@.len(),
            shaders_view(shaders@) == shaders_view(f.shaders@).take(i as int),
        decreases f.shaders.len() - i,
    {
        let ghost prev = shaders@;
        shaders.push(clone_shader(&f.shaders[i]));
        assert(shaders_view(shaders@) =~= shaders_view(prev).push(f.shaders@[i as int]@));
        assert(shaders_view(f.shaders@).take(i + 1) =~= shaders_view(f.shaders@).take(i as int).push(f.shaders@[i as int]@));
        i = i + 1;
    }
    assert(shaders_view(f.shaders@).take(i as int) =~= shaders_view(f.shaders@));
    let mut errors: Vec<ParseError> = Vec::new();
    let mut j: usize = 0;
    while j < f.errors.len()
        invariant
            j <= f.errors@.len(),
            errors_view(errors@) == errors_view(f.errors@).take(j as int),
        decreases f.errors.len() - j,
    {
        let e = &f.errors[j];
        let ghost prev = errors@;
        errors.push(ParseError { message: e.message.clone(), range: e.range });
        assert(errors_view(errors@) =~= errors_view(prev).push(error_view(f.errors@[j as int])));
        assert(errors_view(f.errors@).take(j + 1) =~= errors_view(f.errors@).take(j as int).push(error_view(f.errors@[j as int])));
        j = j + 1;
    }
    assert(errors_view(f.errors@).take(j as int) =~= errors_view(f.errors@));
    MatFile { material, shaders, errors }
}

/// A copy of a shader block.
pub fn clone_shader(b: &ShaderBlock) -> (r: ShaderBlock)
    ensures
        r@ == b@,
{
    let mut symbols: Vec<ShaderSymbol> = Vec::new();
    let mut i: usize = 0;
    while i < b.symbols.len()
        invariant
            i <= b.symbols@.len(),
            symbols_view(symbols@) == symbols_view(b.symbols@.take(i as int)),
        decreases b.symbols.len() - i,
    {
        let s = &b.symbols[i];
        let x = ShaderSymbol { kind: s.kind, name: s.name.clone(), byte_start: s.byte_start, byte_end: s.byte_end };
        let ghost prev = symbols@;
        symbols.push(x);
        assert(symbols_view(symbols@) =~= symbols_view(prev).push(x@));
        assert(symbols_view(b.symbols@.take(i + 1)) =~= symbols_view(b.symbols@.take(i as int)).push(s@));
        i = i + 1;
    }
    assert(b.symbols@.take(i as int) =~= b.symbols@);
    ShaderBlock { block_type: b.block_type, code: b.code.clone(), range: b.range, symbols }
}

} // verus!
