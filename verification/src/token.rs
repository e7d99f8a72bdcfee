//! Tokens: the classified lexemes the lexer produces.

use vstd::prelude::*;
use vstd::string::StringExecFns;

verus! {

/// The lexical category of a token.
#[derive(Clone, Copy, Debug, PartialEq, Eq, Structural)]
pub enum TokenKind {
    LeftParen,
    RightParen,
    LeftBrace,
    RightBrace,
    Comma,
    Dot,
    Minus,
    Plus,
    Semicolon,
    Star,
    Slash,
    Bang,
    BangEqual,
    Equal,
    EqualEqual,
    Less,
    LessEqual,
    Greater,
    GreaterEqual,
    Str,
    Number,
    Ident,
    And,
    Class,
    Else,
    False,
    For,
    Fun,
    If,
    Nil,
    Or,
    Return,
    Super,
    This,
    True,
    Var,
    While,
    Eof,
}

/// A single classified lexeme. `origin` is the exact substring of the source
/// that produced it; it is never empty except for the synthetic end-of-input
/// marker.
#[derive(Clone, Copy, Debug)]
pub struct Token<'a> {
    /// The exact substring of the source this token came from.
    pub origin: &'a str,
    /// The token's lexical category.
    pub kind: TokenKind,
}

/// The kind an identifier-shaped lexeme is classified as: the matching
/// reserved word's kind when the text equals one of the 15 reserved words
/// (case-sensitive), otherwise `Ident`.
pub open spec fn keyword_kind(t: Seq<char>) -> TokenKind {
    if t == "and"@ {
        TokenKind::And
    } else if t == "class"@ {
        TokenKind::Class
    } else if t == "else"@ {
        TokenKind::Else
    } else if t == "false"@ {
        TokenKind::False
    } else if t == "for"@ {
        TokenKind::For
    } else if t == "fun"@ {
        TokenKind::Fun
    } else if t == "if"@ {
        TokenKind::If
    } else if t == "nil"@ {
        TokenKind::Nil
    } else if t == "or"@ {
        TokenKind::Or
    } else if t == "return"@ {
        TokenKind::Return
    } else if t == "super"@ {
        TokenKind::Super
    } else if t == "this"@ {
        TokenKind::This
    } else if t == "true"@ {
        TokenKind::True
    } else if t == "var"@ {
        TokenKind::Var
    } else if t == "while"@ {
        TokenKind::While
    } else {
        TokenKind::Ident
    }
}

/// Whether two string slices hold the same characters.
#[verifier::loop_isolation(false)]
pub fn str_eq(a: &str, b: &str) -> (r: bool)
    ensures
        r == (a@ == b@),
{
    let na = a.unicode_len();
    let nb = b.unicode_len();
    if na != nb {
        return false;
    }
    let mut i: usize = 0;
    while i < na
        invariant
            i <= na,
            na == a@.len(),
            na == b@.len(),
            forall|k: int| 0 <= k < i ==> a@[k] == b@[k],
        decreases na - i,
    {
        if a.get_char(i) != b.get_char(i) {
            return false;
        }
        i += 1;
    }
    proof {
        assert(a@ =~= b@);
    }
    true
}

/// The `keyword_kind` lookup, executably: which kind an identifier-shaped
/// lexeme gets.
pub fn classify_ident(t: &str) -> (k: TokenKind)
    ensures
        k == keyword_kind(t@),
{
    if str_eq(t, "and") {
        TokenKind::And
    } else if str_eq(t, "class") {
        TokenKind::Class
    } else if str_eq(t, "else") {
        TokenKind::Else
    } else if str_eq(t, "false") {
        TokenKind::False
    } else if str_eq(t, "for") {
        TokenKind::For
    } else if str_eq(t, "fun") {
        TokenKind::Fun
    } else if str_eq(t, "if") {
        TokenKind::If
    } else if str_eq(t, "nil") {
        TokenKind::Nil
    } else if str_eq(t, "or") {
        TokenKind::Or
    } else if str_eq(t, "return") {
        TokenKind::Return
    } else if str_eq(t, "super") {
        TokenKind::Super
    } else if str_eq(t, "this") {
        TokenKind::This
    } else if str_eq(t, "true") {
        TokenKind::True
    } else if str_eq(t, "var") {
        TokenKind::Var
    } else if str_eq(t, "while") {
        TokenKind::While
    } else {
        TokenKind::Ident
    }
}

/// Relies on `String::push`: appends exactly the one given character.
#[verifier::external_body]
pub(crate) fn push_char(s: &mut String, c: char)
    ensures
        final(s)@ == old(s)@ + seq![c],
{
    s.push(c);
}

/// The decoded text of a string literal whose origin is `s` (quotes
/// included): the characters between the quotes, with `\"` and `\\` escape
/// sequences replaced by the escaped character and every other character —
/// any other backslash among them — kept as it stands.
pub open spec fn unescaped(s: Seq<char>) -> Seq<char> {
    if s.len() >= 2 {
        decode_escapes(s.subrange(1, s.len() - 1))
    } else {
        Seq::empty()
    }
}

/// Escape processing over the text between the quotes.
pub open spec fn decode_escapes(t: Seq<char>) -> Seq<char>
    decreases t.len(),
{
    if t.len() == 0 {
        Seq::empty()
    } else if t[0] == '\\' && t.len() >= 2 && (t[1] == '"' || t[1] == '\\') {
        seq![t[1]] + decode_escapes(t.skip(2))
    } else {
        seq![t[0]] + decode_escapes(t.skip(1))
    }
}

impl TokenKind {
    /// The decoded value of a string literal, derived on demand from its
    /// origin text (quotes included).
    #[verifier::loop_isolation(false)]
    pub fn unescape(s: &str) -> (r: String)
        ensures
            r@ == unescaped(s@),
    {
        let n = s.unicode_len();
        let mut out = String::new();
        if n < 2 {
            return out;
        }
        let ghost t = s@.subrange(1, s@.len() - 1);
        let end = n - 1;
        let mut i: usize = 1;
        proof {
            assert(t.skip(0) =~= t);
            assert(out@ + decode_escapes(t) =~= decode_escapes(t));
        }
        while i < end
            invariant
                1 <= i <= end,
                end == n - 1,
                n == s@.len(),
                n >= 2,
                t == s@.subrange(1, n - 1),
                decode_escapes(t) == out@ + decode_escapes(t.skip(i - 1)),
            decreases end - i,
        {
            let ghost rest = t.skip(i - 1);
            proof {
                assert(rest[0] == s@[i as int]);
            }
            let c = s.get_char(i);
            if c == '\\' && i + 1 < end {
                let c2 = s.get_char(i + 1);
                proof {
                    assert(rest.len() >= 2);
                    assert(rest[1] == s@[i + 1]);
                }
                if c2 == '"' || c2 == '\\' {
                    push_char(&mut out, c2);
                    proof {
                        assert(decode_escapes(rest) == seq![rest[1]] + decode_escapes(
                            rest.skip(2),
                        ));
                        assert(rest.skip(2) =~= t.skip(i + 1));
                        assert(decode_escapes(t) =~= out@ + decode_escapes(t.skip(i + 1)));
                    }
                    i += 2;
                } else {
                    push_char(&mut out, c);
                    proof {
                        assert(decode_escapes(rest) == seq![rest[0]] + decode_escapes(
                            rest.skip(1),
                        ));
                        assert(rest.skip(1) =~= t.skip(i as int));
                        assert(decode_escapes(t) =~= out@ + decode_escapes(t.skip(i as int)));
                    }
                    i += 1;
                }
            } else {
                push_char(&mut out, c);
                proof {
                    assert(rest.len() == end - i);
                    assert(decode_escapes(rest) == seq![rest[0]] + decode_escapes(rest.skip(1)));
                    assert(rest.skip(1) =~= t.skip(i as int));
                    assert(decode_escapes(t) =~= out@ + decode_escapes(t.skip(i as int)));
                }
                i += 1;
            }
        }
        proof {
            assert(t.skip(end - 1) =~= Seq::<char>::empty());
            assert(out@ =~= unescaped(s@));
        }
        out
    }

    /// Canonical upper-case name of this kind, as the token renderer prints
    /// it.
    pub fn name(&self) -> (r: &'static str)
        ensures
            r@ == spec_name(*self),
    {
        match self {
            TokenKind::LeftParen => "LEFT_PAREN",
            TokenKind::RightParen => "RIGHT_PAREN",
            TokenKind::LeftBrace => "LEFT_BRACE",
            TokenKind::RightBrace => "RIGHT_BRACE",
            TokenKind::Comma => "COMMA",
            TokenKind::Dot => "DOT",
            TokenKind::Minus => "MINUS",
            TokenKind::Plus => "PLUS",
            TokenKind::Semicolon => "SEMICOLON",
            TokenKind::Star => "STAR",
            TokenKind::Slash => "SLASH",
            TokenKind::Bang => "BANG",
            TokenKind::BangEqual => "BANG_EQUAL",
            TokenKind::Equal => "EQUAL",
            TokenKind::EqualEqual => "EQUAL_EQUAL",
            TokenKind::Less => "LESS",
            TokenKind::LessEqual => "LESS_EQUAL",
            TokenKind::Greater => "GREATER",
            TokenKind::GreaterEqual => "GREATER_EQUAL",
            TokenKind::Str => "STRING",
            TokenKind::Number => "NUMBER",
            TokenKind::Ident => "IDENTIFIER",
            TokenKind::And => "AND",
            TokenKind::Class => "CLASS",
            TokenKind::Else => "ELSE",
            TokenKind::False => "FALSE",
            TokenKind::For => "FOR",
            TokenKind::Fun => "FUN",
            TokenKind::If => "IF",
            TokenKind::Nil => "NIL",
            TokenKind::Or => "OR",
            TokenKind::Return => "RETURN",
            TokenKind::Super => "SUPER",
            TokenKind::This => "THIS",
            TokenKind::True => "TRUE",
            TokenKind::Var => "VAR",
            TokenKind::While => "WHILE",
            TokenKind::Eof => "EOF",
        }
    }
}

/// The canonical name of each token kind.
pub open spec fn spec_name(k: TokenKind) -> Seq<char> {
    match k {
        TokenKind::LeftParen => "LEFT_PAREN"@,
        TokenKind::RightParen => "RIGHT_PAREN"@,
        TokenKind::LeftBrace => "LEFT_BRACE"@,
        TokenKind::RightBrace => "RIGHT_BRACE"@,
        TokenKind::Comma => "COMMA"@,
        TokenKind::Dot => "DOT"@,
        TokenKind::Minus => "MINUS"@,
        TokenKind::Plus => "PLUS"@,
        TokenKind::Semicolon => "SEMICOLON"@,
        TokenKind::Star => "STAR"@,
        TokenKind::Slash => "SLASH"@,
        TokenKind::Bang => "BANG"@,
        TokenKind::BangEqual => "BANG_EQUAL"@,
        TokenKind::Equal => "EQUAL"@,
        TokenKind::EqualEqual => "EQUAL_EQUAL"@,
        TokenKind::Less => "LESS"@,
        TokenKind::LessEqual => "LESS_EQUAL"@,
        TokenKind::Greater => "GREATER"@,
        TokenKind::GreaterEqual => "GREATER_EQUAL"@,
        TokenKind::Str => "STRING"@,
        TokenKind::Number => "NUMBER"@,
        TokenKind::Ident => "IDENTIFIER"@,
        TokenKind::And => "AND"@,
        TokenKind::Class => "CLASS"@,
        TokenKind::Else => "ELSE"@,
        TokenKind::False => "FALSE"@,
        TokenKind::For => "FOR"@,
        TokenKind::Fun => "FUN"@,
        TokenKind::If => "IF"@,
        TokenKind::Nil => "NIL"@,
        TokenKind::Or => "OR"@,
        TokenKind::Return => "RETURN"@,
        TokenKind::Super => "SUPER"@,
        TokenKind::This => "THIS"@,
        TokenKind::True => "TRUE"@,
        TokenKind::Var => "VAR"@,
        TokenKind::While => "WHILE"@,
        TokenKind::Eof => "EOF"@,
    }
}

} // verus!
