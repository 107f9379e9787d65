//! Tokens produced by the scanner and consumed by the parser.
use vstd::prelude::*;

verus! {

/// The kinds of token of the language.
#[derive(Debug, Clone, Copy, PartialEq, Eq, Structural)]
pub enum TokenType {
    LeftParen,
    RightParen,
    LeftBrace,
    RightBrace,
    LeftBracket,
    RightBracket,
    Comma,
    Dot,
    Minus,
    Plus,
    Semicolon,
    Colon,
    Slash,
    Star,
    At,
    Bang,
    BangEqual,
    Equal,
    EqualEqual,
    Greater,
    GreaterEqual,
    Less,
    LessEqual,
    Identifier,
    Str,
    Int,
    Float,
    And,
    Class,
    Else,
    Extern,
    False,
    Fn,
    For,
    If,
    Include,
    Null,
    Or,
    New,
    Delete,
    Return,
    Struct,
    Super,
    This,
    True,
    Let,
    While,
    EofToken,
}

/// The literal carried by a token or a literal node.
///
/// A float literal keeps its decimal text exactly as it stood in the source
/// (digits, a dot, digits); the program that runs it decides how to read it.
#[derive(Debug, Clone, PartialEq)]
pub enum Value {
    Null,
    Bool(bool),
    Int(i64),
    Float(String),
    Str(String),
}

/// The mathematical model of a [`Value`].
pub enum SpecValue {
    Null,
    Bool(bool),
    Int(i64),
    Float(Seq<char>),
    Str(Seq<char>),
}

impl View for Value {
    type V = SpecValue;

    open spec fn view(&self) -> SpecValue {
        match self {
            Value::Null => SpecValue::Null,
            Value::Bool(b) => SpecValue::Bool(*b),
            Value::Int(n) => SpecValue::Int(*n),
            Value::Float(t) => SpecValue::Float(t@),
            Value::Str(s) => SpecValue::Str(s@),
        }
    }
}

impl Value {
    /// A copy of this value.
    pub fn duplicate(&self) -> (r: Value)
        ensures
            r == *self,
    {
        match self {
            Value::Null => Value::Null,
            Value::Bool(b) => Value::Bool(*b),
            Value::Int(n) => Value::Int(*n),
            Value::Float(t) => Value::Float(t.clone()),
            Value::Str(s) => Value::Str(s.clone()),
        }
    }
}

/// A token: its kind, the source text it was scanned from, its literal value
/// and the line on which it ended.
#[derive(Debug, Clone, PartialEq)]
pub struct Token {
    pub token_type: TokenType,
    pub lexeme: String,
    pub literal: Value,
    pub line: usize,
}

/// The mathematical model of a [`Token`].
pub struct SpecToken {
    pub token_type: TokenType,
    pub lexeme: Seq<char>,
    pub literal: SpecValue,
    pub line: nat,
}

impl View for Token {
    type V = SpecToken;

    open spec fn view(&self) -> SpecToken {
        SpecToken {
            token_type: self.token_type,
            lexeme: self.lexeme@,
            literal: self.literal@,
            line: self.line as nat,
        }
    }
}

impl Token {
    pub fn new(token_type: TokenType, lexeme: String, literal: Value, line: usize) -> (t: Token)
        ensures
            t.token_type == token_type,
            t.lexeme == lexeme,
            t.literal == literal,
            t.line == line,
    {
        Token { token_type, lexeme, literal, line }
    }

    /// A token that stands in no source text, made by the parser or the type
    /// checker when they desugar; it carries no literal.
    pub fn synthetic(token_type: TokenType, lexeme: &str, line: usize) -> (t: Token)
        ensures
            t.token_type == token_type,
            t.lexeme@ == lexeme@,
            t.literal == Value::Null,
            t.line == line,
    {
        Token { token_type, lexeme: lexeme.to_string(), literal: Value::Null, line }
    }

    /// A copy of this token.
    pub fn duplicate(&self) -> (r: Token)
        ensures
            r == *self,
    {
        Token {
            token_type: self.token_type,
            lexeme: self.lexeme.clone(),
            literal: self.literal.duplicate(),
            line: self.line,
        }
    }
}

} // verus!
