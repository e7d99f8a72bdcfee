//! The mathematical model of scanning: character classes, byte offsets of
//! UTF-8 text, and the function from input and position to the next lexeme.
//!
//! The executable [`crate::Lexer`](crate::Lexer) is specified against
//! [`spec_next`] and [`spec_items`]; the proofs here give the bounds and
//! progress facts those contracts rest on.

use vstd::prelude::*;
use vstd::utf8::{char_is_scalar, encode_scalar, encode_utf8};

use crate::token::TokenKind;
use crate::diag::ErrorKind;

verus! {

// ---------------------------------------------------------------------------
// Character classes
// ---------------------------------------------------------------------------
/// A character the lexer skips as whitespace: the Unicode `White_Space` set.
pub open spec fn is_space(c: char) -> bool {
    let u = c as u32;
    ||| u == 0x09
    ||| u == 0x0A
    ||| u == 0x0B
    ||| u == 0x0C
    ||| u == 0x0D
    ||| u == 0x20
    ||| u == 0x85
    ||| u == 0xA0
    ||| u == 0x1680
    ||| (0x2000 <= u && u <= 0x200A)
    ||| u == 0x2028
    ||| u == 0x2029
    ||| u == 0x202F
    ||| u == 0x205F
    ||| u == 0x3000
}

/// An ASCII decimal digit.
pub open spec fn is_digit(c: char) -> bool {
    ('0' as u32) <= (c as u32) && (c as u32) <= ('9' as u32)
}

/// An ASCII letter or underscore: what an identifier may begin with.
pub open spec fn is_ident_start(c: char) -> bool {
    let u = c as u32;
    ||| (('a' as u32) <= u && u <= ('z' as u32))
    ||| (('A' as u32) <= u && u <= ('Z' as u32))
    ||| c == '_'
}

/// A character an identifier may continue with.
pub open spec fn is_ident_cont(c: char) -> bool {
    is_ident_start(c) || is_digit(c)
}

/// A character the greedy numeric run consumes: a digit or a dot.
pub open spec fn is_number_cont(c: char) -> bool {
    is_digit(c) || c == '.'
}

/// The kind of a fixed single-character token, if `c` begins one.
pub open spec fn single_kind(c: char) -> Option<TokenKind> {
    if c == '(' {
        Some(TokenKind::LeftParen)
    } else if c == ')' {
        Some(TokenKind::RightParen)
    } else if c == '{' {
        Some(TokenKind::LeftBrace)
    } else if c == '}' {
        Some(TokenKind::RightBrace)
    } else if c == ',' {
        Some(TokenKind::Comma)
    } else if c == '.' {
        Some(TokenKind::Dot)
    } else if c == '-' {
        Some(TokenKind::Minus)
    } else if c == '+' {
        Some(TokenKind::Plus)
    } else if c == ';' {
        Some(TokenKind::Semicolon)
    } else if c == '*' {
        Some(TokenKind::Star)
    } else if c == '/' {
        Some(TokenKind::Slash)
    } else {
        None
    }
}

/// Whether `c` begins a one- or two-character operator decided by lookahead.
pub open spec fn is_lookahead_start(c: char) -> bool {
    c == '<' || c == '>' || c == '!' || c == '='
}

/// The two-character kind emitted when a lookahead starter is followed by `=`.
pub open spec fn with_equal_kind(c: char) -> TokenKind
    recommends
        is_lookahead_start(c),
{
    if c == '<' {
        TokenKind::LessEqual
    } else if c == '>' {
        TokenKind::GreaterEqual
    } else if c == '!' {
        TokenKind::BangEqual
    } else {
        TokenKind::EqualEqual
    }
}

/// The one-character kind emitted when a lookahead starter stands alone.
pub open spec fn alone_kind(c: char) -> TokenKind
    recommends
        is_lookahead_start(c),
{
    if c == '<' {
        TokenKind::Less
    } else if c == '>' {
        TokenKind::Greater
    } else if c == '!' {
        TokenKind::Bang
    } else {
        TokenKind::Equal
    }
}

// ---------------------------------------------------------------------------
// Byte offsets of positions in UTF-8 text
// ---------------------------------------------------------------------------
/// Number of bytes in the UTF-8 encoding of `s`.
pub open spec fn byte_len(s: Seq<char>) -> nat {
    encode_utf8(s).len()
}

/// Byte offset of character position `i` within the UTF-8 encoding of `s`.
pub open spec fn byte_of(s: Seq<char>, i: int) -> nat {
    byte_len(s.take(i))
}

/// The UTF-8 encoding of concatenated texts is the concatenation of their
/// encodings.
pub proof fn lemma_encode_utf8_concat(a: Seq<char>, b: Seq<char>)
    ensures
        encode_utf8(a + b) == encode_utf8(a) + encode_utf8(b),
    decreases a.len(),
{
    if a.len() == 0 {
        assert(a + b =~= b);
        assert(encode_utf8(a) + encode_utf8(b) =~= encode_utf8(b));
    } else {
        assert((a + b).drop_first() =~= a.drop_first() + b);
        lemma_encode_utf8_concat(a.drop_first(), b);
        assert((a + b)[0] == a[0]);
        assert(encode_utf8(a + b) =~= encode_utf8(a) + encode_utf8(b));
    }
}

/// Consuming the character at position `i` advances the byte offset by that
/// character's encoded width.
pub proof fn lemma_byte_of_step(s: Seq<char>, i: int)
    requires
        0 <= i < s.len(),
    ensures
        byte_of(s, i + 1) == byte_of(s, i) + encode_scalar(s[i] as u32).len(),
{
    assert(s.take(i + 1) =~= s.take(i) + seq![s[i]]);
    lemma_encode_utf8_concat(s.take(i), seq![s[i]]);
    assert(encode_utf8(Seq::<char>::empty()) =~= Seq::<u8>::empty());
    assert(seq![s[i]].drop_first() =~= Seq::<char>::empty());
    assert(encode_utf8(seq![s[i]]) =~= encode_scalar(s[i] as u32) + encode_utf8(
        Seq::<char>::empty(),
    ));
    assert(encode_utf8(seq![s[i]]) =~= encode_scalar(s[i] as u32));
}

/// Byte offsets are monotone in the character position.
pub proof fn lemma_byte_of_mono(s: Seq<char>, i: int, k: int)
    requires
        0 <= i <= k <= s.len(),
    ensures
        byte_of(s, i) <= byte_of(s, k),
{
    assert(s.take(k).take(i) =~= s.take(i));
    lemma_byte_of_prefix(s.take(k), i);
}

/// A prefix of the text encodes to no more bytes than the whole text.
pub proof fn lemma_byte_of_prefix(s: Seq<char>, i: int)
    requires
        0 <= i <= s.len(),
    ensures
        byte_of(s, i) <= byte_len(s),
        byte_len(s) == byte_of(s, i) + byte_len(s.skip(i)),
{
    assert(s =~= s.take(i) + s.skip(i));
    lemma_encode_utf8_concat(s.take(i), s.skip(i));
}

/// Text of ASCII characters encodes to one byte per character.
pub proof fn lemma_ascii_byte_len(s: Seq<char>)
    requires
        forall|i: int| 0 <= i < s.len() ==> (#[trigger] s[i] as u32) < 0x80,
    ensures
        byte_len(s) == s.len(),
    decreases s.len(),
{
    if s.len() > 0 {
        lemma_ascii_byte_len(s.drop_first());
        assert(encode_scalar(s[0] as u32).len() == 1);
    }
}

/// Width in bytes of one character's UTF-8 encoding.
pub fn char_len_utf8(c: char) -> (n: usize)
    ensures
        n == encode_scalar(c as u32).len(),
        1 <= n <= 4,
{
    proof {
        char_is_scalar(c);
    }
    let u = c as u32;
    if u < 0x80 {
        1
    } else if u < 0x800 {
        2
    } else if u < 0x10000 {
        3
    } else {
        4
    }
}

// ---------------------------------------------------------------------------
// Positions the scan moves between
// ---------------------------------------------------------------------------
/// First position at or after `i` that holds a non-whitespace character
/// (or the end of input).
pub open spec fn skip_ws(s: Seq<char>, i: int) -> int
    decreases s.len() - i
        when 0 <= i <= s.len()
{
    if i == s.len() {
        i
    } else if is_space(s[i]) {
        skip_ws(s, i + 1)
    } else {
        i
    }
}

pub proof fn lemma_skip_ws_bounds(s: Seq<char>, i: int)
    requires
        0 <= i <= s.len(),
    ensures
        i <= skip_ws(s, i) <= s.len(),
        skip_ws(s, i) < s.len() ==> !is_space(s[skip_ws(s, i)]),
        forall|k: int| i <= k < skip_ws(s, i) ==> is_space(#[trigger] s[k]),
    decreases s.len() - i,
{
    if i < s.len() && is_space(s[i]) {
        lemma_skip_ws_bounds(s, i + 1);
    }
}

/// End of the maximal run of identifier characters beginning at `i`.
pub open spec fn ident_end(s: Seq<char>, i: int) -> int
    decreases s.len() - i
        when 0 <= i <= s.len()
{
    if i == s.len() {
        i
    } else if is_ident_cont(s[i]) {
        ident_end(s, i + 1)
    } else {
        i
    }
}

pub proof fn lemma_ident_end_bounds(s: Seq<char>, i: int)
    requires
        0 <= i <= s.len(),
    ensures
        i <= ident_end(s, i) <= s.len(),
        ident_end(s, i) < s.len() ==> !is_ident_cont(s[ident_end(s, i)]),
        forall|k: int| i <= k < ident_end(s, i) ==> is_ident_cont(#[trigger] s[k]),
    decreases s.len() - i,
{
    if i < s.len() && is_ident_cont(s[i]) {
        lemma_ident_end_bounds(s, i + 1);
    }
}

/// End of the maximal run of digits and dots beginning at `i`.
pub open spec fn number_run_end(s: Seq<char>, i: int) -> int
    decreases s.len() - i
        when 0 <= i <= s.len()
{
    if i == s.len() {
        i
    } else if is_number_cont(s[i]) {
        number_run_end(s, i + 1)
    } else {
        i
    }
}

pub proof fn lemma_number_run_end_bounds(s: Seq<char>, i: int)
    requires
        0 <= i <= s.len(),
    ensures
        i <= number_run_end(s, i) <= s.len(),
        forall|k: int| i <= k < number_run_end(s, i) ==> is_number_cont(#[trigger] s[k]),
    decreases s.len() - i,
{
    if i < s.len() && is_number_cont(s[i]) {
        lemma_number_run_end_bounds(s, i + 1);
    }
}

/// First position at or after `i` that holds a closing double quote
/// (or the end of input).
pub open spec fn close_quote(s: Seq<char>, i: int) -> int
    decreases s.len() - i
        when 0 <= i <= s.len()
{
    if i == s.len() {
        i
    } else if s[i] == '"' {
        i
    } else {
        close_quote(s, i + 1)
    }
}

pub proof fn lemma_close_quote_bounds(s: Seq<char>, i: int)
    requires
        0 <= i <= s.len(),
    ensures
        i <= close_quote(s, i) <= s.len(),
        close_quote(s, i) < s.len() ==> s[close_quote(s, i)] == '"',
        forall|k: int| i <= k < close_quote(s, i) ==> #[trigger] s[k] != '"',
    decreases s.len() - i,
{
    if i < s.len() && s[i] != '"' {
        lemma_close_quote_bounds(s, i + 1);
    }
}

/// First dot in `[i, end)`, or `end` when there is none.
pub open spec fn dot_from(s: Seq<char>, i: int, end: int) -> int
    decreases end - i
        when 0 <= i <= end <= s.len()
{
    if i == end {
        end
    } else if s[i] == '.' {
        i
    } else {
        dot_from(s, i + 1, end)
    }
}

pub proof fn lemma_dot_from_bounds(s: Seq<char>, i: int, end: int)
    requires
        0 <= i <= end <= s.len(),
    ensures
        i <= dot_from(s, i, end) <= end,
        dot_from(s, i, end) < end ==> s[dot_from(s, i, end)] == '.',
        forall|k: int| i <= k < dot_from(s, i, end) ==> #[trigger] s[k] != '.',
    decreases end - i,
{
    if i < end && s[i] != '.' {
        lemma_dot_from_bounds(s, i + 1, end);
    }
}

/// Where the numeric literal beginning at the digit at `p` ends: the greedy
/// digit-and-dot run, trimmed by the fractional-part rule — a trailing bare
/// dot is excluded, and everything from a second dot onward is excluded.
pub open spec fn number_end(s: Seq<char>, p: int) -> int
    recommends
        0 <= p < s.len(),
        is_digit(s[p]),
{
    let r = number_run_end(s, p);
    let d1 = dot_from(s, p, r);
    if d1 == r {
        r
    } else {
        let d2 = dot_from(s, d1 + 1, r);
        if d2 < r {
            d2
        } else if d1 == r - 1 {
            d1
        } else {
            r
        }
    }
}

pub proof fn lemma_number_end_bounds(s: Seq<char>, p: int)
    requires
        0 <= p < s.len(),
        is_digit(s[p]),
    ensures
        p < number_end(s, p) <= number_run_end(s, p) <= s.len(),
        forall|k: int| p <= k < number_end(s, p) ==> is_number_cont(#[trigger] s[k]),
{
    assert(is_number_cont(s[p]));
    assert(number_run_end(s, p) == number_run_end(s, p + 1));
    lemma_number_run_end_bounds(s, p + 1);
    lemma_number_run_end_bounds(s, p);
    let r = number_run_end(s, p);
    assert(r >= p + 1);
    assert(s[p] != '.');
    lemma_dot_from_bounds(s, p, r);
    let d1 = dot_from(s, p, r);
    if d1 < r {
        assert(s[d1] == '.');
        assert(d1 != p);
        lemma_dot_from_bounds(s, d1 + 1, r);
    }
}

// ---------------------------------------------------------------------------
// The next lexeme
// ---------------------------------------------------------------------------
/// One step of the scan: a token over the character range `[start, end)`,
/// an error over that range, or the end of input.
#[allow(inconsistent_fields)]
pub ghost enum ScanItem {
    Tok { kind: TokenKind, start: int, end: int },
    Fail { kind: ErrorKind, start: int, end: int },
    End,
}

/// What one pull of the scanner yields at character position `pos` of `s`,
/// and over which character range.
pub open spec fn spec_next(s: Seq<char>, pos: int) -> ScanItem
    recommends
        0 <= pos <= s.len(),
{
    let p = skip_ws(s, pos);
    if p == s.len() {
        ScanItem::End
    } else {
        let c = s[p];
        if single_kind(c) is Some {
            ScanItem::Tok { kind: single_kind(c).unwrap(), start: p, end: p + 1 }
        } else if is_lookahead_start(c) {
            if p + 1 < s.len() && s[p + 1] == '=' {
                ScanItem::Tok { kind: with_equal_kind(c), start: p, end: p + 2 }
            } else {
                ScanItem::Tok { kind: alone_kind(c), start: p, end: p + 1 }
            }
        } else if c == '"' {
            let q = close_quote(s, p + 1);
            if q == s.len() {
                ScanItem::Fail { kind: ErrorKind::UnterminatedString, start: p, end: s.len() as int }
            } else {
                ScanItem::Tok { kind: TokenKind::Str, start: p, end: q + 1 }
            }
        } else if is_digit(c) {
            ScanItem::Tok { kind: TokenKind::Number, start: p, end: number_end(s, p) }
        } else if is_ident_start(c) {
            ScanItem::Tok {
                kind: crate::token::keyword_kind(s.subrange(p, ident_end(s, p))),
                start: p,
                end: ident_end(s, p),
            }
        } else {
            ScanItem::Fail { kind: ErrorKind::UnexpectedCharacter(c), start: p, end: p + 1 }
        }
    }
}

/// The character position at which the pull after this one starts.
pub open spec fn next_scan_pos(s: Seq<char>, pos: int) -> int
    recommends
        0 <= pos <= s.len(),
{
    match spec_next(s, pos) {
        ScanItem::Tok { end, .. } => end,
        ScanItem::Fail { end, .. } => end,
        ScanItem::End => s.len() as int,
    }
}

/// Every pull either makes forward progress or reports the end of input.
pub proof fn lemma_progress(s: Seq<char>, pos: int)
    requires
        0 <= pos <= s.len(),
    ensures
        pos <= next_scan_pos(s, pos) <= s.len(),
        !(spec_next(s, pos) is End) ==> pos < next_scan_pos(s, pos),
{
    lemma_skip_ws_bounds(s, pos);
    let p = skip_ws(s, pos);
    if p < s.len() {
        let c = s[p];
        if single_kind(c) is Some {
        } else if is_lookahead_start(c) {
        } else if c == '"' {
            lemma_close_quote_bounds(s, p + 1);
        } else if is_digit(c) {
            lemma_number_end_bounds(s, p);
        } else if is_ident_start(c) {
            lemma_ident_end_bounds(s, p);
            assert(ident_end(s, p) >= p + 1);
        } else {
        }
    }
}

/// The whole sequence of tokens and errors that scanning `s` from `pos`
/// yields, in order.
pub open spec fn spec_items(s: Seq<char>, pos: int) -> Seq<ScanItem>
    decreases s.len() - pos
        when 0 <= pos <= s.len()
        via spec_items_decreases
{
    if spec_next(s, pos) is End {
        Seq::empty()
    } else {
        seq![spec_next(s, pos)] + spec_items(s, next_scan_pos(s, pos))
    }
}

#[via_fn]
proof fn spec_items_decreases(s: Seq<char>, pos: int) {
    lemma_progress(s, pos);
}

} // verus!
