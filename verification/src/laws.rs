//! Laws of the scanner, stated over the model and proved once and for all.
//!
//! [`crate::model::lemma_progress`] is of the same standing: every pull
//! either moves forward or reports the end of input.

use vstd::prelude::*;

use crate::model::{
    alone_kind, is_ident_cont, is_ident_start, is_lookahead_start, is_space, lemma_ident_end_bounds,
    lemma_skip_ws_bounds, next_scan_pos, single_kind, skip_ws, spec_items, spec_next,
    with_equal_kind, ScanItem,
};
use crate::token::keyword_kind;

verus! {

/// Law: whitespace-only input yields nothing but the end of input.
pub proof fn lemma_whitespace_only(s: Seq<char>)
    requires
        forall|i: int| 0 <= i < s.len() ==> is_space(#[trigger] s[i]),
    ensures
        spec_items(s, 0) == Seq::<ScanItem>::empty(),
{
    lemma_skip_ws_bounds(s, 0);
    assert(skip_ws(s, 0) == s.len() as int);
    assert(spec_next(s, 0) is End);
    assert(spec_items(s, 0) =~= Seq::<ScanItem>::empty());
}

/// Law: an input that is one fixed punctuation character yields exactly one
/// token of the matching kind, spanning that character, and nothing more.
pub proof fn lemma_single_punctuation(c: char)
    requires
        single_kind(c) is Some,
    ensures
        spec_items(seq![c], 0) == seq![
            ScanItem::Tok { kind: single_kind(c).unwrap(), start: 0, end: 1 },
        ],
{
    let s = seq![c];
    assert(s.len() == 1 && s[0] == c);
    assert(!is_space(c));
    assert(skip_ws(s, 0) == 0);
    assert(spec_next(s, 0) == ScanItem::Tok { kind: single_kind(c).unwrap(), start: 0, end: 1 });
    assert(next_scan_pos(s, 0) == 1);
    assert(skip_ws(s, 1) == 1);
    assert(spec_next(s, 1) is End);
    assert(spec_items(s, 1) =~= Seq::<ScanItem>::empty());
    assert(spec_items(s, 0) =~= seq![
        ScanItem::Tok { kind: single_kind(c).unwrap(), start: 0, end: 1 },
    ]);
}

/// Law: the one-token lookahead. At a `<`, `>`, `!` or `=`, an immediately
/// following `=` joins the token, which then spans both characters; anything
/// else — or the end of input — leaves a one-character token, and the next
/// pull starts exactly at the following character.
pub proof fn lemma_lookahead(s: Seq<char>, pos: int)
    requires
        0 <= pos < s.len(),
        is_lookahead_start(s[pos]),
    ensures
        pos + 1 < s.len() && s[pos + 1] == '=' ==> spec_next(s, pos) == (ScanItem::Tok {
            kind: with_equal_kind(s[pos]),
            start: pos,
            end: pos + 2,
        }),
        !(pos + 1 < s.len() && s[pos + 1] == '=') ==> spec_next(s, pos) == (ScanItem::Tok {
            kind: alone_kind(s[pos]),
            start: pos,
            end: pos + 1,
        }),
        (next_scan_pos(s, pos) == if pos + 1 < s.len() && s[pos + 1] == '=' {
            pos + 2
        } else {
            pos + 1
        }),
{
    assert(!is_space(s[pos]));
    assert(skip_ws(s, pos) == pos);
    assert(single_kind(s[pos]) is None);
}

/// Law: an input that is one identifier-shaped lexeme yields exactly one
/// token classified by the keyword lookup — the matching keyword kind when
/// the text is one of the 15 reserved words, `Ident` otherwise.
pub proof fn lemma_keyword_or_identifier(s: Seq<char>)
    requires
        s.len() > 0,
        is_ident_start(s[0]),
        forall|i: int| 0 <= i < s.len() ==> is_ident_cont(#[trigger] s[i]),
    ensures
        spec_items(s, 0) == seq![
            ScanItem::Tok { kind: keyword_kind(s), start: 0, end: s.len() as int },
        ],
{
    assert(!is_space(s[0]));
    assert(skip_ws(s, 0) == 0);
    assert(single_kind(s[0]) is None);
    assert(!is_lookahead_start(s[0]));
    assert(s[0] != '"');
    lemma_ident_end_bounds(s, 0);
    let e = crate::model::ident_end(s, 0);
    assert(e == s.len() as int);
    assert(s.subrange(0, e) =~= s);
    assert(spec_next(s, 0) == ScanItem::Tok { kind: keyword_kind(s), start: 0, end: s.len() as int });
    assert(next_scan_pos(s, 0) == s.len() as int);
    assert(skip_ws(s, s.len() as int) == s.len() as int);
    assert(spec_next(s, s.len() as int) is End);
    assert(spec_items(s, s.len() as int) =~= Seq::<ScanItem>::empty());
    assert(spec_items(s, 0) =~= seq![
        ScanItem::Tok { kind: keyword_kind(s), start: 0, end: s.len() as int },
    ]);
}

} // verus!
