//! The token vocabulary the scanner emits against: passive value types
//! plus their mathematical model.

use vstd::prelude::*;

verus! {

/// The closed vocabulary of token kinds.
///
/// `Identifier` is reserved for a future lexeme class; no scanning rule
/// produces it yet. `Error` marks a rejected character and travels only
/// as the payload of a lexical error, never as a regular stream element.
#[derive(Copy, Clone, Hash, Eq, PartialEq, Structural, Debug)]
pub enum TokenType {
    Error,
    EndOfLine,
    EndOfFile,
    LeftParenthesis,
    RightParenthesis,
    Identifier,
}

/// Mathematical model of a token: its kind, its lexeme as a sequence of
/// characters, and the position recorded for it (1-based line; column of
/// the last character consumed for it, 0-based within the line).
#[verifier::ext_equal]
pub struct SpecToken {
    pub token_type: TokenType,
    pub lexeme: Seq<char>,
    pub line: int,
    pub column: int,
}

/// A token: a classified slice of the source text together with the line
/// and column recorded when it was scanned. Immutable once created.
#[derive(Clone, Hash, Eq, PartialEq, Debug)]
pub struct Token {
    pub token_type: TokenType,
    pub lexeme: String,
    pub line: u32,
    pub column: u32,
}

impl View for Token {
    type V = SpecToken;

    open spec fn view(&self) -> SpecToken {
        SpecToken {
            token_type: self.token_type,
            lexeme: self.lexeme@,
            line: self.line as int,
            column: self.column as int,
        }
    }
}

impl Token {
    /// Whether this token is the `Error` sentinel wrapping a rejected
    /// character.
    #[inline]
    pub fn is_error(&self) -> (r: bool)
        ensures
            r == (self@.token_type is Error),
    {
        self.token_type == TokenType::Error
    }

    /// Whether this token is a regular stream element, i.e. not the
    /// `Error` sentinel.
    #[inline]
    pub fn is_regular(&self) -> (r: bool)
        ensures
            r == !(self@.token_type is Error),
    {
        !self.is_error()
    }
}

} // verus!
