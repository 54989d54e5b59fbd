//! Tokens produced by the lexer. All semantic meaning is carried by the
//! token's text; the type only says which lexical class it belongs to.
use vstd::prelude::*;

verus! {

/// Minimal token classes.
#[derive(Debug, Clone, Copy, PartialEq, Eq, Structural)]
pub enum TokenType {
    /// Top-level block keyword: material, vertex, fragment, compute, tool
    BlockKeyword,
    /// Generic identifier (property names, enum values, type names, etc.)
    Identifier,
    /// String literal "like this"
    StringLiteral,
    /// Number literal 42 or 3.14
    NumberLiteral,
    /// Boolean literal true / false
    BoolLiteral,
    /// Null literal
    NullLiteral,
    /// {
    LCurly,
    /// }
    RCurly,
    /// [
    LBracket,
    /// ]
    RBracket,
    /// :
    Colon,
    /// ,
    Comma,
    /// Comment (// or /* */)
    Comment,
    /// Raw GLSL code inside a shader block
    GlslCode,
    /// Unknown/unrecognized token
    Unknown,
}

/// A token: its class, its text and the 1-based line and column of its start.
#[derive(Debug)]
pub struct Token {
    pub token_type: TokenType,
    pub value: String,
    pub line: u32,
    pub column: u32,
}

impl Clone for Token {
    fn clone(&self) -> (r: Self)
        ensures
            r == *self,
    {
        Token {
            token_type: self.token_type,
            value: self.value.clone(),
            line: self.line,
            column: self.column,
        }
    }
}

impl Token {
    pub fn new(token_type: TokenType, value: &str, line: u32, column: u32) -> (r: Self)
        ensures
            r.token_type == token_type,
            r.value@ == value@,
            r.line == line,
            r.column == column,
    {
        Token { token_type, value: crate::text::to_owned_string(value), line, column }
    }
}

/// Helper trait to make working with tokens easier.
pub trait TokenExt {
    fn is_type(&self, token_type: &TokenType) -> bool;
}

impl TokenExt for Token {
    fn is_type(&self, token_type: &TokenType) -> (r: bool)
        ensures
            r == (self.token_type == *token_type),
    {
        self.token_type == *token_type
    }
}

} // verus!
