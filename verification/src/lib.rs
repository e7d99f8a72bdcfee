//! A lexical analyser for a small C-like scripting language.
//!
//! The [`Lexer`] turns source text into a sequence of classified [`Token`]s,
//! reporting each malformed lexeme as a [`ScanError`] with a byte-accurate
//! span into the original input.

pub mod diag;
pub mod laws;
pub mod model;
pub mod scanner;
pub mod token;

pub use diag::{ErrorKind, ScanError};
pub use scanner::Lexer;
pub use token::{Token, TokenKind};
