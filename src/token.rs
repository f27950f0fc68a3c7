//! Tokens: typed pieces of source text with the place where they start.
use vstd::prelude::*;

use crate::position::Position;
use crate::text::owned;

verus! {

/// The kinds of token.
#[derive(Clone, Copy, Debug, PartialEq, Eq, Structural)]
pub enum TokenType {
    Operation,
    Hex,
    Address,
    Location,
    Comma,
    Comment,
    Whitespace,
    Newline,
    EndOfFile,
    Word,
    Unknown,
    StartPosition,
}

/// The operations that take no operand or two operands.
#[derive(Clone, Copy, Debug, PartialEq, Eq, Structural)]
pub enum Keywords {
    MOV,
    HLT,
    NOP,
}

/// A token: its text, its kind, and the position of its first character.
#[derive(Debug, Clone, PartialEq, Eq)]
pub struct Token {
    pub value: String,
    pub token_type: TokenType,
    pub start_position: Position,
}

/// What a token holds, as mathematical values.
pub struct TokenModel {
    pub kind: TokenType,
    pub text: Seq<char>,
    pub start: Position,
}

impl View for Token {
    type V = TokenModel;

    open spec fn view(&self) -> TokenModel {
        TokenModel { kind: self.token_type, text: self.value@, start: self.start_position }
    }
}

impl Token {
    pub fn new(value: String, token_type: TokenType, start_position: Position) -> (r: Token)
        ensures
            r@ == (TokenModel { kind: token_type, text: value@, start: start_position }),
    {
        Token { token_type, value, start_position }
    }

    /// A token with the same text, kind and position.
    pub fn duplicate(&self) -> (r: Token)
        ensures
            r@ == self@,
    {
        Token {
            value: owned(self.value.as_str()),
            token_type: self.token_type,
            start_position: self.start_position,
        }
    }
}

} // verus!
