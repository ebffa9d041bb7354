//! Token definitions for the Monkey language.

use vstd::prelude::*;

verus! {

/// The closed set of lexical categories.
#[derive(Eq, Hash, PartialEq, Structural, Debug, Clone, Copy)]
pub enum TokenType {
    // Special tokens
    Illegal,
    EOF,
    // Identifiers + literals
    Ident,
    Int,
    // One character operators
    Assign,
    Plus,
    Minus,
    Bang,
    Asterisk,
    Slash,
    LT,
    GT,
    // Two characters operators
    Equal,
    NotEqual,
    // Delimiters
    Comma,
    Semicolon,
    LParen,
    RParen,
    LBrace,
    RBrace,
    // Keywords
    Function,
    Let,
    True,
    False,
    If,
    Else,
    Return,
}

/// Mathematical model of a token: a kind together with the characters of the
/// literal text it carries.
pub struct TokenV {
    pub kind: TokenType,
    pub literal: Seq<char>,
}

/// A token pairs a kind with the exact source text that produced it.
#[derive(PartialEq, Debug, Clone)]
pub struct Token {
    pub token_type: TokenType,
    pub literal: String,
}

impl View for Token {
    type V = TokenV;

    open spec fn view(&self) -> TokenV {
        TokenV { kind: self.token_type, literal: self.literal@ }
    }
}

impl Token {
    pub fn new(token_type: TokenType, literal: &str) -> (t: Self)
        ensures
            t@ == (TokenV { kind: token_type, literal: literal@ }),
    {
        Self { token_type, literal: literal.to_owned() }
    }

    /// The literal text always equals the exact source substring that
    /// produced the token.
    pub fn literal(&self) -> (l: String)
        ensures
            l@ == self@.literal,
    {
        self.literal.clone()
    }
}

} // verus!
