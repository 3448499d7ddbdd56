//! Properties of the lexical grammar that hold for every input, proved over
//! the model that the scanner is verified against.

use crate::error::ErrorType;
use crate::grammar::{
    end_of_input, in_class, is_whitespace, lemma_run_end, lex, lex_from, lookup, newlines,
    reserved_words, run_end, scan_all, scan_step, single_kind, CharClass,
};
use crate::token::{KindView, TokenView};
use vstd::prelude::*;

verus! {

/// A run ends exactly where the characters stop belonging to its class.
pub proof fn lemma_run_end_exact(src: Seq<char>, i: int, e: int, k: CharClass)
    requires
        0 <= i <= e <= src.len(),
        forall|j: int| i <= j < e ==> in_class(#[trigger] src[j], k),
        e == src.len() || !in_class(src[e], k),
    ensures
        run_end(src, i, k) == e,
    decreases e - i,
{
    if i < e {
        lemma_run_end_exact(src, i + 1, e, k);
    }
}

proof fn lemma_reserved_not_end(table: Seq<(Seq<char>, KindView)>, w: Seq<char>)
    requires
        forall|j: int| 0 <= j < table.len() ==> table[j].1 != KindView::EOF,
    ensures
        lookup(table, w) != Some(KindView::EOF),
    decreases table.len(),
{
    if table.len() > 0 && table[0].0 != w {
        lemma_reserved_not_end(table.drop_first(), w);
    }
}

/// No scan step emits the end marker.
pub proof fn lemma_step_not_end(src: Seq<char>, start: int, line: nat)
    requires
        0 <= start < src.len(),
    ensures
        scan_step(src, start, line).token matches Some(t) ==> t.kind != KindView::EOF,
{
    let w = src.subrange(start, run_end(src, start + 1, CharClass::AlphaNumeric));
    lemma_reserved_not_end(reserved_words(), w);
}

proof fn lemma_lex_no_end(src: Seq<char>, pos: int, line: nat)
    ensures
        forall|j: int|
            0 <= j < lex_from(src, pos, line).tokens.len() ==> (#[trigger] lex_from(
                src,
                pos,
                line,
            ).tokens[j]).kind != KindView::EOF,
    decreases src.len() - pos,
{
    if 0 <= pos < src.len() {
        let s = scan_step(src, pos, line);
        crate::grammar::lemma_step_bounds(src, pos, line);
        lemma_step_not_end(src, pos, line);
        lemma_lex_no_end(src, s.next, s.line);
    }
}

/// Every scan ends with the end marker, and that is the only end marker in it.
pub proof fn lemma_ends_with_end_of_input(src: Seq<char>)
    ensures
        scan_all(src).len() >= 1,
        scan_all(src).last().kind == KindView::EOF,
        forall|j: int| 0 <= j < scan_all(src).len() - 1 ==> (#[trigger] scan_all(src)[j]).kind != KindView::EOF,
{
    lemma_lex_no_end(src, 0, 1);
    assert forall|j: int| 0 <= j < scan_all(src).len() - 1 implies (#[trigger] scan_all(src)[j]).kind
        != KindView::EOF by {
        assert(scan_all(src)[j] == lex(src).tokens[j]);
    }
}

proof fn lemma_whitespace_lex(src: Seq<char>, pos: int, line: nat)
    requires
        forall|j: int| 0 <= j < src.len() ==> is_whitespace(#[trigger] src[j]),
    ensures
        lex_from(src, pos, line).tokens.len() == 0,
        lex_from(src, pos, line).errors.len() == 0,
    decreases src.len() - pos,
{
    if 0 <= pos < src.len() {
        let s = scan_step(src, pos, line);
        crate::grammar::lemma_step_bounds(src, pos, line);
        assert(is_whitespace(src[pos]));
        lemma_whitespace_lex(src, s.next, s.line);
    }
}

/// A text of whitespace alone scans to the end marker alone, with no diagnostic.
pub proof fn lemma_whitespace_only(src: Seq<char>)
    requires
        forall|j: int| 0 <= j < src.len() ==> is_whitespace(#[trigger] src[j]),
    ensures
        scan_all(src).len() == 1,
        scan_all(src)[0].kind == KindView::EOF,
        lex(src).errors.len() == 0,
{
    lemma_whitespace_lex(src, 0, 1);
}

/// A quoted text without a quote inside scans to one string token whose
/// payload is the text between the quotes.
pub proof fn lemma_string_literal(s: Seq<char>)
    requires
        !s.contains('"'),
    ensures
        lex(seq!['"'] + s + seq!['"']).tokens == seq![
            TokenView {
                kind: KindView::String(s),
                lexeme: seq!['"'] + s + seq!['"'],
                line: 1 + newlines(s),
            },
        ],
        lex(seq!['"'] + s + seq!['"']).errors.len() == 0,
{
    let src = seq!['"'] + s + seq!['"'];
    let e = 1 + s.len() as int;
    assert forall|j: int| 1 <= j < e implies in_class(#[trigger] src[j], CharClass::NotQuote) by {
        assert(src[j] == s[j - 1]);
    }
    lemma_run_end_exact(src, 1, e, CharClass::NotQuote);
    assert(src.subrange(1, e) =~= s);
    assert(src.subrange(0, e + 1) =~= src);
    assert(single_kind('"') is None);
    let st = scan_step(src, 0, 1);
    assert(st.next == src.len());
    let rest = lex_from(src, st.next, st.line);
    assert(rest.tokens.len() == 0 && rest.errors.len() == 0);
    assert(lex(src).tokens =~= seq![st.token->0]);
}

/// An opening quote whose text runs to the end without a closing quote
/// produces no token and exactly one unterminated-string diagnostic.
pub proof fn lemma_unterminated_string(s: Seq<char>)
    requires
        !s.contains('"'),
    ensures
        lex(seq!['"'] + s).tokens.len() == 0,
        lex(seq!['"'] + s).errors == seq![(1 + newlines(s), ErrorType::UnterminatedString)],
        scan_all(seq!['"'] + s) == seq![end_of_input(1 + newlines(s))],
{
    let src = seq!['"'] + s;
    let e = src.len() as int;
    assert forall|j: int| 1 <= j < e implies in_class(#[trigger] src[j], CharClass::NotQuote) by {
        assert(src[j] == s[j - 1]);
    }
    lemma_run_end_exact(src, 1, e, CharClass::NotQuote);
    assert(src.subrange(1, e) =~= s);
    assert(single_kind('"') is None);
    let st = scan_step(src, 0, 1);
    assert(st.next == src.len());
    let rest = lex_from(src, st.next, st.line);
    assert(rest.tokens.len() == 0 && rest.errors.len() == 0);
    assert(lex(src).errors =~= seq![(1 + newlines(s), ErrorType::UnterminatedString)]);
    assert(scan_all(src) =~= seq![end_of_input(1 + newlines(s))]);
}

proof fn lemma_lex_lines(src: Seq<char>, pos: int, line: nat)
    ensures
        line <= lex_from(src, pos, line).line,
        forall|j: int|
            0 <= j < lex_from(src, pos, line).tokens.len() ==> line <= (#[trigger] lex_from(
                src,
                pos,
                line,
            ).tokens[j]).line <= lex_from(src, pos, line).line,
        forall|i: int, j: int|
            0 <= i < j < lex_from(src, pos, line).tokens.len() ==> (#[trigger] lex_from(
                src,
                pos,
                line,
            ).tokens[i]).line <= (#[trigger] lex_from(src, pos, line).tokens[j]).line,
    decreases src.len() - pos,
{
    if 0 <= pos < src.len() {
        let s = scan_step(src, pos, line);
        crate::grammar::lemma_step_bounds(src, pos, line);
        lemma_lex_lines(src, s.next, s.line);
        let rest = lex_from(src, s.next, s.line);
        let all = lex_from(src, pos, line).tokens;
        let k = crate::grammar::opt_seq(s.token).len() as int;
        assert(s.token matches Some(t) ==> t.line == s.line);
        assert forall|j: int| k <= j < all.len() implies all[j] == rest.tokens[j - k] by {}
        assert forall|j: int| 0 <= j < k implies all[j] == s.token->0 by {}
    }
}

/// Every token lies on a line numbered from 1, and lines never go back
/// along the sequence; the end marker carries the last line.
pub proof fn lemma_lines_ordered(src: Seq<char>)
    ensures
        forall|j: int| 0 <= j < scan_all(src).len() ==> 1 <= (#[trigger] scan_all(src)[j]).line,
        forall|i: int, j: int|
            0 <= i < j < scan_all(src).len() ==> (#[trigger] scan_all(src)[i]).line <= (
            #[trigger] scan_all(src)[j]).line,
{
    lemma_lex_lines(src, 0, 1);
    let toks = lex(src).tokens;
    assert forall|j: int| 0 <= j < toks.len() implies scan_all(src)[j] == toks[j] by {}
}

/// `w` is a non-empty contiguous part of `src`.
pub open spec fn is_span_of(src: Seq<char>, w: Seq<char>) -> bool {
    exists|a: int, b: int| 0 <= a < b <= src.len() && #[trigger] src.subrange(a, b) == w
}

proof fn lemma_lex_spans(src: Seq<char>, pos: int, line: nat)
    ensures
        forall|j: int|
            0 <= j < lex_from(src, pos, line).tokens.len() ==> is_span_of(
                src,
                (#[trigger] lex_from(src, pos, line).tokens[j]).lexeme,
            ),
    decreases src.len() - pos,
{
    if 0 <= pos < src.len() {
        let s = scan_step(src, pos, line);
        crate::grammar::lemma_step_bounds(src, pos, line);
        lemma_lex_spans(src, s.next, s.line);
        let rest = lex_from(src, s.next, s.line);
        let all = lex_from(src, pos, line).tokens;
        let k = crate::grammar::opt_seq(s.token).len() as int;
        if s.token is Some {
            assert(s.token->0.lexeme == src.subrange(pos, s.next));
            assert(is_span_of(src, s.token->0.lexeme));
        }
        assert forall|j: int| k <= j < all.len() implies all[j] == rest.tokens[j - k] by {}
        assert forall|j: int| 0 <= j < k implies all[j] == s.token->0 by {}
    }
}

/// Every token but the end marker was made from a non-empty contiguous part
/// of the source text, which is its lexeme.
pub proof fn lemma_tokens_are_spans(src: Seq<char>)
    ensures
        forall|j: int| 0 <= j < scan_all(src).len() - 1 ==> is_span_of(src, (#[trigger] scan_all(src)[j]).lexeme),
{
    lemma_lex_spans(src, 0, 1);
    let toks = lex(src).tokens;
    assert forall|j: int| 0 <= j < toks.len() implies scan_all(src)[j] == toks[j] by {}
}

proof fn lemma_newlines_concat(a: Seq<char>, b: Seq<char>)
    ensures
        newlines(a + b) == newlines(a) + newlines(b),
    decreases b.len(),
{
    if b.len() > 0 {
        assert((a + b).drop_last() =~= a + b.drop_last());
        lemma_newlines_concat(a, b.drop_last());
    } else {
        assert(a + b =~= a);
    }
}

proof fn lemma_no_newlines(s: Seq<char>)
    requires
        forall|j: int| 0 <= j < s.len() ==> #[trigger] s[j] != '\n',
    ensures
        newlines(s) == 0,
    decreases s.len(),
{
    if s.len() > 0 {
        lemma_no_newlines(s.drop_last());
    }
}

/// A step counts exactly the newlines among the characters it consumes.
proof fn lemma_step_newlines(src: Seq<char>, pos: int, line: nat)
    requires
        0 <= pos < src.len(),
    ensures
        scan_step(src, pos, line).line == line + newlines(
            src.subrange(pos, scan_step(src, pos, line).next),
        ),
{
    crate::grammar::lemma_step_bounds(src, pos, line);
    let st = scan_step(src, pos, line);
    let c = src[pos];
    let i = pos + 1;
    let q = seq!['"'];
    lemma_no_newlines(q);
    if c == '"' {
        let e = run_end(src, i, CharClass::NotQuote);
        lemma_run_end(src, i, CharClass::NotQuote);
        let inner = src.subrange(i, e);
        lemma_newlines_concat(q, inner);
        if e >= src.len() {
            assert(src.subrange(pos, st.next) =~= q + inner);
        } else {
            assert(src.subrange(pos, st.next) =~= (q + inner) + q);
            lemma_newlines_concat(q + inner, q);
        }
    } else if c == '\n' {
        assert(src.subrange(pos, st.next) =~= seq!['\n']);
        assert(seq!['\n'].drop_last() =~= Seq::<char>::empty());
        assert(newlines(Seq::<char>::empty()) == 0);
        assert(seq!['\n'].last() == '\n');
        assert(newlines(seq!['\n']) == 1);
    } else {
        if c == '/' && crate::grammar::next_is(src, i, '/') {
            lemma_run_end(src, i + 1, CharClass::NotNewline);
        } else if crate::grammar::is_digit(c) {
            lemma_run_end(src, i, CharClass::Digit);
            let a = run_end(src, i, CharClass::Digit);
            if a + 1 < src.len() && src[a] == '.' && crate::grammar::is_digit(src[a + 1]) {
                lemma_run_end(src, a + 1, CharClass::Digit);
            }
        } else if crate::grammar::is_alpha(c) {
            lemma_run_end(src, i, CharClass::AlphaNumeric);
        }
        let span = src.subrange(pos, st.next);
        assert forall|j: int| 0 <= j < span.len() implies #[trigger] span[j] != '\n' by {
            assert(span[j] == src[pos + j]);
        }
        lemma_no_newlines(span);
    }
}

proof fn lemma_lex_line(src: Seq<char>, pos: int, line: nat)
    requires
        0 <= pos <= src.len(),
    ensures
        lex_from(src, pos, line).line == line + newlines(src.subrange(pos, src.len() as int)),
    decreases src.len() - pos,
{
    if pos < src.len() {
        let st = scan_step(src, pos, line);
        crate::grammar::lemma_step_bounds(src, pos, line);
        lemma_step_newlines(src, pos, line);
        lemma_lex_line(src, st.next, st.line);
        assert(src.subrange(pos, src.len() as int) =~= src.subrange(pos, st.next) + src.subrange(
            st.next,
            src.len() as int,
        ));
        lemma_newlines_concat(src.subrange(pos, st.next), src.subrange(st.next, src.len() as int));
    } else {
        assert(src.subrange(pos, src.len() as int) =~= Seq::<char>::empty());
    }
}

/// Every newline of the source is counted once, inside string literals too:
/// the end marker stands on line 1 plus the number of newlines.
pub proof fn lemma_end_marker_line(src: Seq<char>)
    ensures
        scan_all(src).last().line == 1 + newlines(src),
{
    lemma_lex_line(src, 0, 1);
    assert(src.subrange(0, src.len() as int) =~= src);
}

} // verus!
