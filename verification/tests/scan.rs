use lexer::{ErrorKind, Lexer, ScanError, Token, TokenKind};

fn collect(input: &str) -> Vec<Result<(TokenKind, String), ScanError>> {
    let mut lx = Lexer::new(input);
    let mut out = Vec::new();
    loop {
        match lx.next() {
            None => break,
            Some(Ok(t)) => out.push(Ok((t.kind, t.origin.to_string()))),
            Some(Err(e)) => out.push(Err(e)),
        }
    }
    out
}

fn expect_tokens(input: &str, expected: &[(TokenKind, &str)]) {
    let got = collect(input);
    assert_eq!(got.len(), expected.len(), "token count for {:?}", input);
    for (g, (kind, origin)) in got.iter().zip(expected.iter()) {
        match g {
            Ok((k, o)) => {
                assert_eq!(k, kind, "kind for {:?}", input);
                assert_eq!(o, origin, "origin for {:?}", input);
            },
            Err(e) => panic!("unexpected error {:?} for {:?}", e, input),
        }
    }
}

#[test]
fn whitespace_only_yields_nothing() {
    for input in ["", " ", "\t\n\r ", "   \u{000b}\u{000c}", "\u{00a0}\u{2028}\u{3000}"] {
        let mut lx = Lexer::new(input);
        assert!(lx.next().is_none(), "expected end of input for {:?}", input);
    }
}

#[test]
fn single_punctuation_tokens() {
    let cases = [
        ("(", TokenKind::LeftParen),
        (")", TokenKind::RightParen),
        ("{", TokenKind::LeftBrace),
        ("}", TokenKind::RightBrace),
        (",", TokenKind::Comma),
        (".", TokenKind::Dot),
        ("-", TokenKind::Minus),
        ("+", TokenKind::Plus),
        (";", TokenKind::Semicolon),
        ("*", TokenKind::Star),
        ("/", TokenKind::Slash),
    ];
    for (text, kind) in cases {
        expect_tokens(text, &[(kind, text)]);
    }
}

#[test]
fn lookahead_less_equal() {
    expect_tokens("<=", &[(TokenKind::LessEqual, "<=")]);
    expect_tokens("<x", &[(TokenKind::Less, "<"), (TokenKind::Ident, "x")]);
    expect_tokens("<", &[(TokenKind::Less, "<")]);
}

#[test]
fn lookahead_other_operators() {
    expect_tokens(">=", &[(TokenKind::GreaterEqual, ">=")]);
    expect_tokens(">", &[(TokenKind::Greater, ">")]);
    expect_tokens("!=", &[(TokenKind::BangEqual, "!=")]);
    expect_tokens("!", &[(TokenKind::Bang, "!")]);
    expect_tokens("==", &[(TokenKind::EqualEqual, "==")]);
    expect_tokens("=", &[(TokenKind::Equal, "=")]);
    expect_tokens("= =", &[(TokenKind::Equal, "="), (TokenKind::Equal, "=")]);
}

#[test]
fn number_boundaries() {
    expect_tokens("12.34", &[(TokenKind::Number, "12.34")]);
    let got = collect("12.34");
    match &got[0] {
        Ok((_, origin)) => assert_eq!(origin.parse::<f64>().unwrap(), 12.34),
        Err(e) => panic!("unexpected error {:?}", e),
    }

    expect_tokens("12.", &[(TokenKind::Number, "12"), (TokenKind::Dot, ".")]);
    let got = collect("12.");
    match &got[0] {
        Ok((_, origin)) => assert_eq!(origin.parse::<f64>().unwrap(), 12.0),
        Err(e) => panic!("unexpected error {:?}", e),
    }

    expect_tokens(
        "1.2.3",
        &[(TokenKind::Number, "1.2"), (TokenKind::Dot, "."), (TokenKind::Number, "3")],
    );
    let got = collect("1.2.3");
    match &got[0] {
        Ok((_, origin)) => assert_eq!(origin.parse::<f64>().unwrap(), 1.2),
        Err(e) => panic!("unexpected error {:?}", e),
    }
}

#[test]
fn number_double_dot() {
    expect_tokens(
        "1..2",
        &[(TokenKind::Number, "1."), (TokenKind::Dot, "."), (TokenKind::Number, "2")],
    );
}

#[test]
fn keywords_in_isolation() {
    let cases = [
        ("and", TokenKind::And),
        ("class", TokenKind::Class),
        ("else", TokenKind::Else),
        ("false", TokenKind::False),
        ("for", TokenKind::For),
        ("fun", TokenKind::Fun),
        ("if", TokenKind::If),
        ("nil", TokenKind::Nil),
        ("or", TokenKind::Or),
        ("return", TokenKind::Return),
        ("super", TokenKind::Super),
        ("this", TokenKind::This),
        ("true", TokenKind::True),
        ("var", TokenKind::Var),
        ("while", TokenKind::While),
    ];
    for (text, kind) in cases {
        expect_tokens(text, &[(kind, text)]);
    }
}

#[test]
fn keyword_superstring_is_identifier() {
    expect_tokens("iffy", &[(TokenKind::Ident, "iffy")]);
    expect_tokens("vars", &[(TokenKind::Ident, "vars")]);
    expect_tokens("If", &[(TokenKind::Ident, "If")]);
    expect_tokens("_if", &[(TokenKind::Ident, "_if")]);
}

#[test]
fn string_literal() {
    expect_tokens("\"hi\"", &[(TokenKind::Str, "\"hi\"")]);
    expect_tokens("\"\"", &[(TokenKind::Str, "\"\"")]);
    expect_tokens("\"a b\"", &[(TokenKind::Str, "\"a b\"")]);
}

#[test]
fn unterminated_string() {
    let got = collect("\"abc");
    assert_eq!(got.len(), 1);
    match &got[0] {
        Err(e) => {
            assert_eq!(e.kind, ErrorKind::UnterminatedString);
            assert_eq!(e.start, 0);
            assert_eq!(e.len, 4);
        },
        Ok(t) => panic!("expected an error, got {:?}", t),
    }
}

#[test]
fn unexpected_character() {
    let got = collect("@");
    assert_eq!(got.len(), 1);
    match &got[0] {
        Err(e) => {
            assert_eq!(e.kind, ErrorKind::UnexpectedCharacter('@'));
            assert_eq!(e.start, 0);
            assert_eq!(e.len, 1);
        },
        Ok(t) => panic!("expected an error, got {:?}", t),
    }
}

#[test]
fn scanning_continues_past_unexpected_character() {
    let got = collect("@;");
    assert_eq!(got.len(), 2);
    assert!(matches!(&got[0], Err(e) if e.kind == ErrorKind::UnexpectedCharacter('@')));
    assert!(matches!(&got[1], Ok((TokenKind::Semicolon, o)) if o == ";"));
}

#[test]
fn spans_use_byte_offsets() {
    // The ideographic space takes three bytes; the error span starts after it.
    let got = collect("\u{3000}@");
    assert_eq!(got.len(), 1);
    match &got[0] {
        Err(e) => {
            assert_eq!(e.kind, ErrorKind::UnexpectedCharacter('@'));
            assert_eq!(e.start, 3);
            assert_eq!(e.len, 1);
        },
        Ok(t) => panic!("expected an error, got {:?}", t),
    }
    // A two-byte character yields a two-byte span.
    let got = collect("\u{00e9}");
    assert_eq!(got.len(), 1);
    match &got[0] {
        Err(e) => {
            assert_eq!(e.kind, ErrorKind::UnexpectedCharacter('\u{00e9}'));
            assert_eq!(e.start, 0);
            assert_eq!(e.len, 2);
        },
        Ok(t) => panic!("expected an error, got {:?}", t),
    }
}

#[test]
fn scanning_twice_is_deterministic() {
    let input = "var x = 1.5 >= 2;\n\"s\" @ iffy";
    let first = collect(input);
    let second = collect(input);
    assert_eq!(first.len(), second.len());
    for (a, b) in first.iter().zip(second.iter()) {
        match (a, b) {
            (Ok(x), Ok(y)) => assert_eq!(x, y),
            (Err(x), Err(y)) => assert_eq!(x, y),
            _ => panic!("sequences differ"),
        }
    }
}

#[test]
fn end_to_end_statement() {
    expect_tokens(
        "var x = 1.5 >= 2;\n",
        &[
            (TokenKind::Var, "var"),
            (TokenKind::Ident, "x"),
            (TokenKind::Equal, "="),
            (TokenKind::Number, "1.5"),
            (TokenKind::GreaterEqual, ">="),
            (TokenKind::Number, "2"),
            (TokenKind::Semicolon, ";"),
        ],
    );
}

#[test]
fn scan_collects_the_whole_sequence() {
    let input = "fun f(a, b) { return a + b; }";
    let mut lx = Lexer::new(input);
    let items: Vec<Result<Token, ScanError>> = lx.scan();
    let manual = collect(input);
    assert_eq!(items.len(), manual.len());
    for (a, b) in items.iter().zip(manual.iter()) {
        match (a, b) {
            (Ok(t), Ok((k, o))) => {
                assert_eq!(&t.kind, k);
                assert_eq!(t.origin, o);
            },
            (Err(x), Err(y)) => assert_eq!(x, y),
            _ => panic!("sequences differ"),
        }
    }
    let mut again = Lexer::new(input);
    assert!(!again.scan().is_empty());
}

#[test]
fn string_with_multibyte_content() {
    // Bytes: quote 0, 'h' 1, 'é' 2-3, 'l' 4, 'l' 5, 'o' 6, quote 7, space 8, '@' 9.
    let got = collect("\"h\u{00e9}llo\" @");
    assert_eq!(got.len(), 2);
    assert!(matches!(&got[0], Ok((TokenKind::Str, o)) if o == "\"h\u{00e9}llo\""));
    match &got[1] {
        Err(e) => {
            assert_eq!(e.kind, ErrorKind::UnexpectedCharacter('@'));
            assert_eq!(e.start, 9);
            assert_eq!(e.len, 1);
        },
        Ok(t) => panic!("expected an error, got {:?}", t),
    }
}
