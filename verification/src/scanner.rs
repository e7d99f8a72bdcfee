//! The scanner: a pull-based, forward-only lexer over a borrowed input.

use vstd::prelude::*;
use vstd::string::{StrSliceExecFns, StringSliceAdditionalSpecFns};
use vstd::utf8::encode_utf8;

use crate::diag::{ErrorKind, ScanError};
use crate::model::{
    alone_kind, byte_len, byte_of, char_len_utf8, close_quote, dot_from, ident_end, is_digit,
    is_ident_cont, is_ident_start, is_lookahead_start, is_number_cont, is_space,
    lemma_ascii_byte_len, lemma_byte_of_mono, lemma_byte_of_prefix, lemma_byte_of_step,
    lemma_number_end_bounds, lemma_progress, next_scan_pos, number_end, number_run_end,
    single_kind, skip_ws, spec_items, spec_next, with_equal_kind, ScanItem,
};
use crate::token::{classify_ident, Token, TokenKind};

verus! {

/// How one pull's result relates to the item the model prescribes: the right
/// variant, the kind the model gives, the token's origin the prescribed
/// character range of the input, and the error's span the byte range of that
/// character range.
pub open spec fn output_matches<'a>(
    r: Option<Result<Token<'a>, ScanError>>,
    s: Seq<char>,
    item: ScanItem,
) -> bool {
    match item {
        ScanItem::Tok { kind, start, end } => {
            &&& r matches Some(Ok(t))
            &&& t.kind == kind
            &&& t.origin@ == s.subrange(start, end)
        },
        ScanItem::Fail { kind, start, end } => {
            &&& r matches Some(Err(e))
            &&& e.kind == kind
            &&& e.start == byte_of(s, start)
            &&& e.start + e.len == byte_of(s, end)
        },
        ScanItem::End => r is None,
    }
}

/// The lexer. It borrows the whole input and scans it forward, one lexeme
/// per pull of [`Lexer::next`].
pub struct Lexer<'a> {
    whole: &'a str,
    pos: usize,
    byte: usize,
}

impl<'a> Lexer<'a> {
    /// The full input, as the sequence of its characters.
    pub closed spec fn input(&self) -> Seq<char> {
        self.whole@
    }

    /// The character position scanning has reached.
    pub closed spec fn position(&self) -> int {
        self.pos as int
    }

    /// The scanner's byte offset tracks its character position, and both lie
    /// within the input.
    pub closed spec fn wf(&self) -> bool {
        &&& self.pos <= self.input().len()
        &&& self.byte == byte_of(self.input(), self.pos as int)
        &&& byte_len(self.input()) <= usize::MAX
    }

    /// A fresh scanner over `input`, positioned at its start.
    pub fn new(input: &'a str) -> (lx: Lexer<'a>)
        ensures
            lx.wf(),
            lx.input() == input@,
            lx.position() == 0,
    {
        let bytes = input.as_bytes();
        let n = bytes.len();
        proof {
            assert(bytes@ == encode_utf8(input@));
            assert(n == byte_len(input@));
            assert(input@.take(0) =~= Seq::<char>::empty());
        }
        Lexer { whole: input, pos: 0, byte: 0 }
    }

    /// One pull: the next token, the next scanning error, or `None` once the
    /// input is exhausted — exactly the item the model prescribes at the
    /// current position, which the scanner then moves past.
    #[verifier::loop_isolation(false)]
    #[verifier::rlimit(100)]
    pub fn next(&mut self) -> (r: Option<Result<Token<'a>, ScanError>>)
        requires
            old(self).wf(),
        ensures
            final(self).wf(),
            final(self).input() == old(self).input(),
            final(self).position() == next_scan_pos(old(self).input(), old(self).position()),
            output_matches(r, old(self).input(), spec_next(old(self).input(), old(self).position())),
    {
        let ghost s = self.whole@;
        let ghost pos0 = self.pos as int;
        let w = self.whole;
        let n = w.unicode_len();

        // Step 1: skip whitespace.
        while self.pos < n && is_space_char(w.get_char(self.pos))
            invariant
                self.whole == w,
                0 <= pos0 <= self.pos as int <= n as int,
                skip_ws(s, pos0) == skip_ws(s, self.pos as int),
                self.byte == byte_of(s, self.pos as int),
            decreases n - self.pos,
        {
            let c = w.get_char(self.pos);
            let lb = char_len_utf8(c);
            proof {
                lemma_byte_of_step(s, self.pos as int);
                lemma_byte_of_prefix(s, self.pos + 1);
                assert(skip_ws(s, self.pos as int) == skip_ws(s, self.pos + 1));
            }
            self.pos += 1;
            self.byte += lb;
        }
        if self.pos >= n {
            proof {
                assert(skip_ws(s, self.pos as int) == s.len() as int);
                assert(spec_next(s, pos0) is End);
            }
            return None;
        }

        // Step 2: dispatch on the first character of the lexeme.
        let p = self.pos;
        let ghost pi = p as int;
        let c = w.get_char(p);
        proof {
            assert(skip_ws(s, pi) == pi);
        }

        if let Some(kind) = single_kind_of(c) {
            // Fixed single-character token.
            let origin = w.substring_char(p, p + 1);
            let lb = char_len_utf8(c);
            proof {
                lemma_byte_of_step(s, pi);
                lemma_byte_of_prefix(s, pi + 1);
            }
            self.pos = p + 1;
            self.byte += lb;
            Some(Ok(Token { origin, kind }))
        } else if is_lookahead_start_char(c) {
            // One- or two-character operator, decided by an immediate peek.
            let mut has_equal = false;
            if p + 1 < n {
                let c2 = w.get_char(p + 1);
                has_equal = c2 == '=';
            }
            if has_equal {
                let origin = w.substring_char(p, p + 2);
                let lb = char_len_utf8(c);
                let lb2 = char_len_utf8('=');
                proof {
                    lemma_byte_of_step(s, pi);
                    lemma_byte_of_step(s, pi + 1);
                    lemma_byte_of_prefix(s, pi + 2);
                }
                self.pos = p + 2;
                self.byte += lb + lb2;
                Some(Ok(Token { origin, kind: with_equal_kind_of(c) }))
            } else {
                let origin = w.substring_char(p, p + 1);
                let lb = char_len_utf8(c);
                proof {
                    lemma_byte_of_step(s, pi);
                    lemma_byte_of_prefix(s, pi + 1);
                }
                self.pos = p + 1;
                self.byte += lb;
                Some(Ok(Token { origin, kind: alone_kind_of(c) }))
            }
        } else if c == '"' {
            // String literal: scan forward to the closing quote.
            let lbq = char_len_utf8(c);
            proof {
                lemma_byte_of_step(s, pi);
                lemma_byte_of_prefix(s, pi + 1);
            }
            let mut j = p + 1;
            let mut jb = self.byte + lbq;
            while j < n && w.get_char(j) != '"'
                invariant
                    pi + 1 <= j as int <= n as int,
                    close_quote(s, pi + 1) == close_quote(s, j as int),
                    jb == byte_of(s, j as int),
                decreases n - j,
            {
                let cj = w.get_char(j);
                let lb = char_len_utf8(cj);
                proof {
                    lemma_byte_of_step(s, j as int);
                    lemma_byte_of_prefix(s, j + 1);
                    assert(close_quote(s, j as int) == close_quote(s, j + 1));
                }
                j += 1;
                jb += lb;
            }
            if j >= n {
                // Unterminated: the span runs from the opening quote to the
                // end of the input, all of which is consumed.
                proof {
                    assert(close_quote(s, j as int) == s.len() as int);
                    assert(s.take(n as int) =~= s);
                    lemma_byte_of_mono(s, pi, j as int);
                }
                let start_byte = self.byte;
                self.pos = j;
                self.byte = jb;
                Some(
                    Err(
                        ScanError {
                            kind: ErrorKind::UnterminatedString,
                            start: start_byte,
                            len: jb - start_byte,
                        },
                    ),
                )
            } else {
                // s[j] is the closing quote.
                proof {
                    assert(close_quote(s, j as int) == j as int);
                    lemma_byte_of_step(s, j as int);
                    lemma_byte_of_prefix(s, j + 1);
                }
                let origin = w.substring_char(p, j + 1);
                let lbq2 = char_len_utf8('"');
                self.pos = j + 1;
                self.byte = jb + lbq2;
                Some(Ok(Token { origin, kind: TokenKind::Str }))
            }
        } else if is_digit_char(c) {
            // Numeric literal: greedy digit-and-dot run, then the
            // fractional-part trimming rule.
            let mut j = p + 1;
            proof {
                assert(number_run_end(s, pi) == number_run_end(s, pi + 1));
            }
            while j < n && is_number_cont_char(w.get_char(j))
                invariant
                    pi + 1 <= j as int <= n as int,
                    number_run_end(s, pi) == number_run_end(s, j as int),
                    forall|k: int| pi <= k < j as int ==> is_number_cont(#[trigger] s[k]),
                decreases n - j,
            {
                proof {
                    assert(number_run_end(s, j as int) == number_run_end(s, j + 1));
                }
                j += 1;
            }
            proof {
                assert(number_run_end(s, j as int) == j as int);
            }
            // j ends the greedy run; find the first dot.
            let mut d1 = p;
            while d1 < j && w.get_char(d1) != '.'
                invariant
                    pi <= d1 as int <= j as int,
                    dot_from(s, pi, j as int) == dot_from(s, d1 as int, j as int),
                decreases j - d1,
            {
                proof {
                    assert(dot_from(s, d1 as int, j as int) == dot_from(s, d1 + 1, j as int));
                }
                d1 += 1;
            }
            proof {
                assert(dot_from(s, d1 as int, j as int) == d1 as int || dot_from(
                    s,
                    d1 as int,
                    j as int,
                ) == j as int);
                assert(dot_from(s, pi, j as int) == d1 as int);
            }
            let e: usize = if d1 >= j {
                j
            } else {
                // A dot at d1; find a second one.
                let mut d2 = d1 + 1;
                while d2 < j && w.get_char(d2) != '.'
                    invariant
                        d1 + 1 <= d2 as int <= j as int,
                        dot_from(s, d1 + 1, j as int) == dot_from(s, d2 as int, j as int),
                    decreases j - d2,
                {
                    proof {
                        assert(dot_from(s, d2 as int, j as int) == dot_from(s, d2 + 1, j as int));
                    }
                    d2 += 1;
                }
                proof {
                    assert(dot_from(s, d1 + 1, j as int) == d2 as int);
                }
                if d2 < j {
                    d2
                } else if d1 + 1 == j {
                    d1
                } else {
                    j
                }
            };
            proof {
                assert(e as int == number_end(s, pi));
                lemma_number_end_bounds(s, pi);
                assert forall|k: int| pi <= k < e as int implies (#[trigger] s[k] as u32)
                    < 0x80 by {
                    assert(is_number_cont(s[k]));
                }
                lemma_ascii_byte_len(s.subrange(pi, e as int));
                assert(s.take(e as int).take(pi) =~= s.take(pi));
                assert(s.take(e as int).skip(pi) =~= s.subrange(pi, e as int));
                lemma_byte_of_prefix(s.take(e as int), pi);
                lemma_byte_of_prefix(s, e as int);
            }
            let origin = w.substring_char(p, e);
            self.byte += e - p;
            self.pos = e;
            Some(Ok(Token { origin, kind: TokenKind::Number }))
        } else if is_ident_start_char(c) {
            // Identifier or reserved word.
            let mut j = p + 1;
            proof {
                assert(ident_end(s, pi) == ident_end(s, pi + 1));
            }
            while j < n && is_ident_cont_char(w.get_char(j))
                invariant
                    pi + 1 <= j as int <= n as int,
                    ident_end(s, pi) == ident_end(s, j as int),
                    forall|k: int| pi <= k < j as int ==> is_ident_cont(#[trigger] s[k]),
                decreases n - j,
            {
                proof {
                    assert(ident_end(s, j as int) == ident_end(s, j + 1));
                }
                j += 1;
            }
            proof {
                assert(ident_end(s, j as int) == j as int);
                assert forall|k: int| pi <= k < j as int implies (#[trigger] s[k] as u32)
                    < 0x80 by {
                    assert(is_ident_cont(s[k]));
                }
                lemma_ascii_byte_len(s.subrange(pi, j as int));
                assert(s.take(j as int).take(pi) =~= s.take(pi));
                assert(s.take(j as int).skip(pi) =~= s.subrange(pi, j as int));
                lemma_byte_of_prefix(s.take(j as int), pi);
                lemma_byte_of_prefix(s, j as int);
            }
            let origin = w.substring_char(p, j);
            let kind = classify_ident(origin);
            self.byte += j - p;
            self.pos = j;
            Some(Ok(Token { origin, kind }))
        } else {
            // No lexeme begins with this character.
            let lb = char_len_utf8(c);
            let start_byte = self.byte;
            proof {
                lemma_byte_of_step(s, pi);
                lemma_byte_of_prefix(s, pi + 1);
            }
            self.pos = p + 1;
            self.byte += lb;
            Some(
                Err(ScanError { kind: ErrorKind::UnexpectedCharacter(c), start: start_byte, len: lb }),
            )
        }
    }

    /// Pull until the input is exhausted and collect every token and error,
    /// in order. Two scans of equal inputs yield equal sequences: the result
    /// is a function of the input alone.
    pub fn scan(&mut self) -> (items: Vec<Result<Token<'a>, ScanError>>)
        requires
            old(self).wf(),
        ensures
            final(self).wf(),
            final(self).input() == old(self).input(),
            final(self).position() == final(self).input().len(),
            items@.len() == spec_items(old(self).input(), old(self).position()).len(),
            forall|i: int|
                0 <= i < items@.len() ==> output_matches(
                    Some(items@[i]),
                    old(self).input(),
                    #[trigger] spec_items(old(self).input(), old(self).position())[i],
                ),
    {
        let ghost s = self.whole@;
        let ghost pos0 = self.pos as int;
        let mut items: Vec<Result<Token<'a>, ScanError>> = Vec::new();
        let ghost mut done: Seq<ScanItem> = Seq::empty();
        proof {
            assert(done + spec_items(s, pos0) =~= spec_items(s, pos0));
        }
        loop
            invariant
                self.wf(),
                self.input() == s,
                0 <= pos0 <= self.position() <= s.len(),
                done.len() == items@.len(),
                forall|i: int|
                    0 <= i < done.len() ==> output_matches(Some(items@[i]), s, #[trigger] done[i]),
                spec_items(s, pos0) == done + spec_items(s, self.position()),
            ensures
                self.wf(),
                self.input() == s,
                self.position() == s.len(),
                done.len() == items@.len(),
                forall|i: int|
                    0 <= i < done.len() ==> output_matches(Some(items@[i]), s, #[trigger] done[i]),
                spec_items(s, pos0) == done,
            decreases s.len() - self.position(),
        {
            let ghost cur = self.position();
            let r = self.next();
            proof {
                lemma_progress(s, cur);
            }
            match r {
                None => {
                    proof {
                        assert(spec_next(s, cur) is End);
                        assert(spec_items(s, cur) =~= Seq::<ScanItem>::empty());
                        assert(spec_items(s, pos0) =~= done);
                    }
                    break;
                },
                Some(item) => {
                    items.push(item);
                    proof {
                        let it = spec_next(s, cur);
                        assert(spec_items(s, cur) == seq![it] + spec_items(s, self.position()));
                        done = done + seq![it];
                        assert(spec_items(s, pos0) =~= done + spec_items(s, self.position()));
                    }
                },
            }
        }
        items
    }
}

// ---------------------------------------------------------------------------
// Executable character classification, each matching its model counterpart.
// ---------------------------------------------------------------------------
fn is_space_char(c: char) -> (r: bool)
    ensures
        r == is_space(c),
{
    let u = c as u32;
    u == 0x09 || u == 0x0A || u == 0x0B || u == 0x0C || u == 0x0D || u == 0x20 || u == 0x85
        || u == 0xA0 || u == 0x1680 || (0x2000 <= u && u <= 0x200A) || u == 0x2028 || u == 0x2029
        || u == 0x202F || u == 0x205F || u == 0x3000
}

fn is_digit_char(c: char) -> (r: bool)
    ensures
        r == is_digit(c),
{
    let u = c as u32;
    0x30 <= u && u <= 0x39
}

fn is_ident_start_char(c: char) -> (r: bool)
    ensures
        r == is_ident_start(c),
{
    let u = c as u32;
    (0x61 <= u && u <= 0x7A) || (0x41 <= u && u <= 0x5A) || u == 0x5F
}

fn is_number_cont_char(c: char) -> (r: bool)
    ensures
        r == is_number_cont(c),
{
    is_digit_char(c) || c == '.'
}

fn is_ident_cont_char(c: char) -> (r: bool)
    ensures
        r == is_ident_cont(c),
{
    is_ident_start_char(c) || is_digit_char(c)
}

fn is_lookahead_start_char(c: char) -> (r: bool)
    ensures
        r == is_lookahead_start(c),
{
    c == '<' || c == '>' || c == '!' || c == '='
}

fn single_kind_of(c: char) -> (k: Option<TokenKind>)
    ensures
        k == single_kind(c),
{
    match c {
        '(' => Some(TokenKind::LeftParen),
        ')' => Some(TokenKind::RightParen),
        '{' => Some(TokenKind::LeftBrace),
        '}' => Some(TokenKind::RightBrace),
        ',' => Some(TokenKind::Comma),
        '.' => Some(TokenKind::Dot),
        '-' => Some(TokenKind::Minus),
        '+' => Some(TokenKind::Plus),
        ';' => Some(TokenKind::Semicolon),
        '*' => Some(TokenKind::Star),
        '/' => Some(TokenKind::Slash),
        _ => None,
    }
}

fn with_equal_kind_of(c: char) -> (k: TokenKind)
    requires
        is_lookahead_start(c),
    ensures
        k == with_equal_kind(c),
{
    if c == '<' {
        TokenKind::LessEqual
    } else if c == '>' {
        TokenKind::GreaterEqual
    } else if c == '!' {
        TokenKind::BangEqual
    } else {
        TokenKind::EqualEqual
    }
}

fn alone_kind_of(c: char) -> (k: TokenKind)
    requires
        is_lookahead_start(c),
    ensures
        k == alone_kind(c),
{
    if c == '<' {
        TokenKind::Less
    } else if c == '>' {
        TokenKind::Greater
    } else if c == '!' {
        TokenKind::Bang
    } else {
        TokenKind::Equal
    }
}

} // verus!
