//! Tokens: the atomic lexical units that the scanner produces and the parser
//! consumes.

use crate::charclass::{is_digit, is_lower};
use vstd::prelude::*;

verus! {

/// The kind of a token.
#[derive(Clone, Copy, Debug, PartialEq, Eq, Structural)]
pub enum TokenKind {
    /// An opening parenthesis.
    ParenOpen,
    /// A closing parenthesis.
    ParenClose,
    /// A run of decimal digits.
    Number,
    /// The content of a double-quoted string, without the quotes.
    Str,
    /// A run of lowercase letters.
    Identifier,
}

/// A token: its kind and the exact lexeme that was captured.
#[derive(Clone, Debug, PartialEq, Eq)]
pub struct Token {
    pub kind: TokenKind,
    pub text: String,
}

/// The mathematical model of a [`Token`]: its kind and its text as a
/// sequence of characters.
pub struct Lexeme {
    pub kind: TokenKind,
    pub text: Seq<char>,
}

/// The token of an opening parenthesis.
pub open spec fn open_paren() -> Lexeme {
    Lexeme { kind: TokenKind::ParenOpen, text: seq!['('] }
}

/// The token of a closing parenthesis.
pub open spec fn close_paren() -> Lexeme {
    Lexeme { kind: TokenKind::ParenClose, text: seq![')'] }
}

/// The shape that the text of a token has, by its kind: a parenthesis is
/// that one character, a number is one digit or more, an identifier is one
/// lowercase letter or more, and a string holds no double quote.
pub open spec fn well_formed(t: Lexeme) -> bool {
    match t.kind {
        TokenKind::ParenOpen => t.text == seq!['('],
        TokenKind::ParenClose => t.text == seq![')'],
        TokenKind::Number => t.text.len() > 0 && forall|k: int|
            0 <= k < t.text.len() ==> is_digit(#[trigger] t.text[k]),
        TokenKind::Identifier => t.text.len() > 0 && forall|k: int|
            0 <= k < t.text.len() ==> is_lower(#[trigger] t.text[k]),
        TokenKind::Str => forall|k: int| 0 <= k < t.text.len() ==> #[trigger] t.text[k] != '"',
    }
}

impl View for Token {
    type V = Lexeme;

    open spec fn view(&self) -> Lexeme {
        Lexeme { kind: self.kind, text: self.text@ }
    }
}

impl DeepView for Token {
    type V = Lexeme;

    open spec fn deep_view(&self) -> Lexeme {
        self@
    }
}

impl Token {
    /// Builds a token of the given kind from a piece of text.
    pub fn new(kind: TokenKind, text: &str) -> (token: Token)
        ensures
            token@ == (Lexeme { kind, text: text@ }),
    {
        Token { kind, text: text.to_owned() }
    }
}

} // verus!
