use lexer::{ErrorKind, Lexer, TokenKind};

#[test]
fn unescape_plain_text() {
    assert_eq!(TokenKind::unescape("\"hi\""), "hi");
    assert_eq!(TokenKind::unescape("\"\""), "");
    assert_eq!(TokenKind::unescape("\"a b c\""), "a b c");
}

#[test]
fn unescape_escaped_quote_and_backslash() {
    // "a\"b" decodes to a"b
    assert_eq!(TokenKind::unescape("\"a\\\"b\""), "a\"b");
    // "a\\b" decodes to a\b
    assert_eq!(TokenKind::unescape("\"a\\\\b\""), "a\\b");
    // "\\\"" decodes to \"
    assert_eq!(TokenKind::unescape("\"\\\\\\\"\""), "\\\"");
}

#[test]
fn unescape_keeps_unknown_escapes() {
    // "a\nb" (backslash then n) stays as it stands.
    assert_eq!(TokenKind::unescape("\"a\\nb\""), "a\\nb");
    // A trailing lone backslash stays too.
    assert_eq!(TokenKind::unescape("\"a\\\""), "a\\");
}

#[test]
fn kind_names() {
    assert_eq!(TokenKind::LeftParen.name(), "LEFT_PAREN");
    assert_eq!(TokenKind::GreaterEqual.name(), "GREATER_EQUAL");
    assert_eq!(TokenKind::Str.name(), "STRING");
    assert_eq!(TokenKind::Number.name(), "NUMBER");
    assert_eq!(TokenKind::Ident.name(), "IDENTIFIER");
    assert_eq!(TokenKind::Var.name(), "VAR");
    assert_eq!(TokenKind::Eof.name(), "EOF");
}

#[test]
fn error_messages() {
    let mut lx = Lexer::new("@");
    match lx.next() {
        Some(Err(e)) => {
            assert_eq!(e.kind, ErrorKind::UnexpectedCharacter('@'));
            assert_eq!(e.message(), "Unexpected token '@' in input");
        },
        other => panic!("expected an error, got {:?}", other),
    }
    let mut lx = Lexer::new("\"abc");
    match lx.next() {
        Some(Err(e)) => {
            assert_eq!(e.kind, ErrorKind::UnterminatedString);
            assert_eq!(e.message(), "Unterminated string literal");
        },
        other => panic!("expected an error, got {:?}", other),
    }
}

#[test]
fn unescape_multibyte_content() {
    assert_eq!(lexer::TokenKind::unescape("\"h\u{00e9}llo\""), "h\u{00e9}llo");
}
