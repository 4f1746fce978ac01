//! Tokens: a kind and the byte range of the source that it covers.
use vstd::prelude::*;

verus! {

/// The kinds of tokens.
#[derive(Clone, Copy, Debug, PartialEq, Eq, Structural)]
pub enum TokenType {
    /// A string literal; whether its closing `ing` was found.
    String(bool),
    /// A number literal spelled out in words.
    Number,
    Identifier,
    Fn,
    Of,
    Do,
    End,
    Let,
    Be,
    In,
    Then,
    Comment,
    Eof,
    /// The token of a node that no source text produced.
    Generated,
}

/// A token: its kind and the bytes `start..end` of the source.
#[derive(Clone, Copy, Debug, PartialEq, Eq, Structural)]
pub struct Token {
    pub token_type: TokenType,
    pub start: usize,
    pub end: usize,
}

impl Token {
    pub open spec fn generated_spec() -> Token {
        Token { token_type: TokenType::Generated, start: 0, end: 0 }
    }

    /// The token of a node that no source text produced.
    pub fn generated() -> (r: Token)
        ensures
            r == Token::generated_spec(),
    {
        Token { token_type: TokenType::Generated, start: 0, end: 0 }
    }
}

} // verus!
