//! Diagnostics: what the lexer reports for a malformed lexeme.

use vstd::prelude::*;
use vstd::string::StringExecFns;

use crate::token::push_char;

verus! {

/// The ways a lexeme can be malformed.
#[derive(Clone, Copy, Debug, PartialEq)]
pub enum ErrorKind {
    /// A character that begins no recognized lexeme; carries that character.
    UnexpectedCharacter(char),
    /// A string literal whose opening quote has no closing quote before the
    /// end of input.
    UnterminatedString,
    /// A digit-and-dot run that does not form a numeric literal.
    InvalidNumericLiteral,
}

/// A scanning error: its kind and the byte span of the offending source
/// text within the original input.
#[derive(Clone, Copy, Debug, PartialEq)]
pub struct ScanError {
    /// What went wrong.
    pub kind: ErrorKind,
    /// Byte offset where the offending span starts.
    pub start: usize,
    /// Length of the offending span in bytes.
    pub len: usize,
}

/// The human-readable message each kind of error carries.
pub open spec fn spec_message(k: ErrorKind) -> Seq<char> {
    match k {
        ErrorKind::UnexpectedCharacter(c) => "Unexpected token '"@ + seq![c] + "' in input"@,
        ErrorKind::UnterminatedString => "Unterminated string literal"@,
        ErrorKind::InvalidNumericLiteral => "Invalid numeric literal"@,
    }
}

impl ScanError {
    /// The human-readable message for this diagnostic.
    pub fn message(&self) -> (m: String)
        ensures
            m@ == spec_message(self.kind),
    {
        match self.kind {
            ErrorKind::UnexpectedCharacter(c) => {
                let mut m = String::from_str("Unexpected token '");
                push_char(&mut m, c);
                m.append("' in input");
                m
            },
            ErrorKind::UnterminatedString => String::from_str("Unterminated string literal"),
            ErrorKind::InvalidNumericLiteral => String::from_str("Invalid numeric literal"),
        }
    }
}

} // verus!
