use vstd::prelude::*;

verus! {

/// A token of the language.  Keywords and punctuation carry nothing; literals
/// carry what they stand for.  A float literal carries its text as written
/// (this library does no floating-point arithmetic; the text is turned into a
/// number by whoever needs one).
#[derive(Debug, PartialEq, Clone)]
pub enum Token {
    VarGlobal,
    Declaration,
    Instruction,
    Const,
    Read,
    Write,
    If,
    Else,
    For,
    IntegerType,
    FloatType,
    CharType,
    Plus,
    Minus,
    Multiply,
    Divide,
    And,
    Or,
    Not,
    GreaterThan,
    LessThan,
    GreaterEqual,
    LessEqual,
    Equal,
    NotEqual,
    Assign,
    Semicolon,
    OpenBrace,
    CloseBrace,
    OpenParen,
    CloseParen,
    Comma,
    Colon,
    OpenBracket,
    CloseBracket,
    Integer(i16),
    Float(String),
    Identifier(String),
    Char(char),
    StringLiteral(String),
}

/// A token with the line and column (both from 1) of its first character.
#[derive(Debug, PartialEq, Clone)]
pub struct SpannedToken {
    pub token: Token,
    pub line: usize,
    pub column: usize,
}

/// The section and statement keywords of the language.
#[derive(Debug, PartialEq, Eq, Clone, Copy)]
pub enum Keyword {
    VarGlobal,
    Declaration,
    Instruction,
    Const,
    IF,
    ELSE,
    FOR,
}

/// The three scalar type keywords.
#[derive(Debug, PartialEq, Eq, Clone, Copy)]
pub enum Type {
    INTEGER,
    FLOAT,
    CHAR,
}

} // verus!
