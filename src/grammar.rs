//! The lexical grammar as a mathematical model: what one scan step
//! recognises from a position, and what a whole scan produces.

use crate::error::ErrorType;
use crate::token::{KindView, NumberValue, TokenView};
use vstd::prelude::*;

verus! {

pub open spec fn is_digit(c: char) -> bool {
    '0' <= c && c <= '9'
}

pub open spec fn is_alpha(c: char) -> bool {
    ('a' <= c && c <= 'z') || c == '_'
}

pub open spec fn is_alphanumeric(c: char) -> bool {
    is_digit(c) || is_alpha(c)
}

/// Whitespace that separates lexemes.
pub open spec fn is_whitespace(c: char) -> bool {
    c == ' ' || c == '\r' || c == '\t' || c == '\n'
}

/// The classes of characters that make up the body of a multi-character lexeme.
pub ghost enum CharClass {
    Digit,
    AlphaNumeric,
    NotNewline,
    NotQuote,
}

pub open spec fn in_class(c: char, k: CharClass) -> bool {
    match k {
        CharClass::Digit => is_digit(c),
        CharClass::AlphaNumeric => is_alphanumeric(c),
        CharClass::NotNewline => c != '\n',
        CharClass::NotQuote => c != '"',
    }
}

/// The end of the longest run of characters of class `k` that starts at `i`.
pub open spec fn run_end(src: Seq<char>, i: int, k: CharClass) -> int
    decreases src.len() - i,
{
    if 0 <= i < src.len() && in_class(src[i], k) {
        run_end(src, i + 1, k)
    } else {
        i
    }
}

pub proof fn lemma_run_end(src: Seq<char>, i: int, k: CharClass)
    requires
        0 <= i <= src.len(),
    ensures
        i <= run_end(src, i, k) <= src.len(),
        forall|j: int| i <= j < run_end(src, i, k) ==> in_class(#[trigger] src[j], k),
        run_end(src, i, k) < src.len() ==> !in_class(src[run_end(src, i, k)], k),
    decreases src.len() - i,
{
    if i < src.len() && in_class(src[i], k) {
        lemma_run_end(src, i + 1, k);
    }
}

/// The number of newline characters in `s`.
pub open spec fn newlines(s: Seq<char>) -> nat
    decreases s.len(),
{
    if s.len() == 0 {
        0
    } else {
        newlines(s.drop_last()) + if s.last() == '\n' {
            1nat
        } else {
            0nat
        }
    }
}

pub proof fn lemma_newlines_bound(s: Seq<char>)
    ensures
        newlines(s) <= s.len(),
    decreases s.len(),
{
    if s.len() > 0 {
        lemma_newlines_bound(s.drop_last());
    }
}

pub open spec fn digit_value(c: char) -> nat {
    (c as u32 - '0' as u32) as nat
}

/// The digits of `s` read as one decimal integer; other characters (the
/// decimal point) are passed over.
pub open spec fn literal_value(s: Seq<char>) -> nat
    decreases s.len(),
{
    if s.len() == 0 {
        0
    } else if is_digit(s.last()) {
        literal_value(s.drop_last()) * 10 + digit_value(s.last())
    } else {
        literal_value(s.drop_last())
    }
}

/// The end of a number literal whose first digit is at `start`: a run of
/// digits, then a point and a second run only where a digit follows the point.
pub open spec fn number_end(src: Seq<char>, start: int) -> int {
    let a = run_end(src, start + 1, CharClass::Digit);
    if a + 1 < src.len() && src[a] == '.' && is_digit(src[a + 1]) {
        run_end(src, a + 1, CharClass::Digit)
    } else {
        a
    }
}

/// The number of digits after the point of the number literal at `start`.
pub open spec fn number_scale(src: Seq<char>, start: int) -> nat {
    let a = run_end(src, start + 1, CharClass::Digit);
    let e = number_end(src, start);
    if e > a {
        (e - a - 1) as nat
    } else {
        0
    }
}

/// The category of a one-character punctuation lexeme.
pub open spec fn single_kind(c: char) -> Option<KindView> {
    if c == '(' {
        Some(KindView::LeftParen)
    } else if c == ')' {
        Some(KindView::RightParen)
    } else if c == '{' {
        Some(KindView::LeftBrace)
    } else if c == '}' {
        Some(KindView::RightBrace)
    } else if c == ',' {
        Some(KindView::Comma)
    } else if c == '.' {
        Some(KindView::Dot)
    } else if c == '-' {
        Some(KindView::Minus)
    } else if c == '+' {
        Some(KindView::Plus)
    } else if c == ';' {
        Some(KindView::Semicolon)
    } else if c == '*' {
        Some(KindView::Star)
    } else {
        None
    }
}

/// The reserved words and their categories, in the order they are looked up.
pub open spec fn reserved_words() -> Seq<(Seq<char>, KindView)> {
    seq![
        ("and"@, KindView::And),
        ("class"@, KindView::Class),
        ("else"@, KindView::Else),
        ("false"@, KindView::False),
        ("for"@, KindView::For),
        ("fun"@, KindView::Fun),
        ("if"@, KindView::If),
        ("nil"@, KindView::Nil),
        ("or"@, KindView::Or),
        ("print"@, KindView::Print),
        ("return"@, KindView::Return),
        ("super"@, KindView::Super),
        ("this"@, KindView::This),
        ("true"@, KindView::True),
        ("var"@, KindView::Var),
        ("while"@, KindView::While),
    ]
}

/// The category bound to `w` by the first entry of `table` that spells it.
pub open spec fn lookup(table: Seq<(Seq<char>, KindView)>, w: Seq<char>) -> Option<KindView>
    decreases table.len(),
{
    if table.len() == 0 {
        None
    } else if table[0].0 == w {
        Some(table[0].1)
    } else {
        lookup(table.drop_first(), w)
    }
}

/// What one scan step does: the token it emits, the error it reports, and
/// where the cursor and the line counter stand afterwards.
pub ghost struct Step {
    pub token: Option<TokenView>,
    pub error: Option<(nat, ErrorType)>,
    pub next: int,
    pub line: nat,
}

/// A step that emits a token of `kind` for the lexeme `src[start..next]`.
pub open spec fn emit(src: Seq<char>, start: int, next: int, line: nat, kind: KindView) -> Step {
    Step {
        token: Some(TokenView { kind, lexeme: src.subrange(start, next), line }),
        error: None,
        next,
        line,
    }
}

/// A step that emits nothing.
pub open spec fn skip(next: int, line: nat) -> Step {
    Step { token: None, error: None, next, line }
}

/// A step that reports an error on `line` and emits nothing.
pub open spec fn fail(next: int, line: nat, e: ErrorType) -> Step {
    Step { token: None, error: Some((line, e)), next, line }
}

/// Whether the character at `i` exists and is `e`.
pub open spec fn next_is(src: Seq<char>, i: int, e: char) -> bool {
    0 <= i < src.len() && src[i] == e
}

/// A one- or two-character operator: `two` when `=` follows, else `one`.
pub open spec fn operator(src: Seq<char>, start: int, line: nat, one: KindView, two: KindView) -> Step {
    if next_is(src, start + 1, '=') {
        emit(src, start, start + 2, line, two)
    } else {
        emit(src, start, start + 1, line, one)
    }
}

/// One scan step from `start` (which must lie inside `src`) on line `line`.
pub open spec fn scan_step(src: Seq<char>, start: int, line: nat) -> Step {
    let c = src[start];
    let i = start + 1;
    if single_kind(c) is Some {
        emit(src, start, i, line, single_kind(c)->0)
    } else if c == '!' {
        operator(src, start, line, KindView::Bang, KindView::BangEqual)
    } else if c == '=' {
        operator(src, start, line, KindView::Equal, KindView::EqualEqual)
    } else if c == '<' {
        operator(src, start, line, KindView::Less, KindView::LessEqual)
    } else if c == '>' {
        operator(src, start, line, KindView::Greater, KindView::GreaterEqual)
    } else if c == '/' {
        if next_is(src, i, '/') {
            skip(run_end(src, i + 1, CharClass::NotNewline), line)
        } else {
            emit(src, start, i, line, KindView::Slash)
        }
    } else if c == ' ' || c == '\r' || c == '\t' {
        skip(i, line)
    } else if c == '\n' {
        skip(i, line + 1)
    } else if c == '"' {
        let e = run_end(src, i, CharClass::NotQuote);
        let l = line + newlines(src.subrange(i, e));
        if e >= src.len() {
            fail(e, l, ErrorType::UnterminatedString)
        } else {
            emit(src, start, e + 1, l, KindView::String(src.subrange(i, e)))
        }
    } else if is_digit(c) {
        let e = number_end(src, start);
        let v = literal_value(src.subrange(start, e));
        if v <= u64::MAX {
            emit(
                src,
                start,
                e,
                line,
                KindView::Number(NumberValue { mantissa: v as u64, scale: number_scale(src, start) as usize }),
            )
        } else {
            fail(e, line, ErrorType::NumberTooLarge)
        }
    } else if is_alpha(c) {
        let e = run_end(src, i, CharClass::AlphaNumeric);
        let w = src.subrange(start, e);
        emit(
            src,
            start,
            e,
            line,
            match lookup(reserved_words(), w) {
                Some(k) => k,
                None => KindView::Identifier(w),
            },
        )
    } else {
        fail(i, line, ErrorType::UnexpectedChar)
    }
}

/// A step always consumes at least one character, never runs past the end,
/// and counts at most one line per character consumed.
pub proof fn lemma_step_bounds(src: Seq<char>, start: int, line: nat)
    requires
        0 <= start < src.len(),
    ensures
        start < scan_step(src, start, line).next <= src.len(),
        line <= scan_step(src, start, line).line <= line + (scan_step(src, start, line).next - start),
{
    let c = src[start];
    let i = start + 1;
    if c == '/' && next_is(src, i, '/') {
        lemma_run_end(src, i + 1, CharClass::NotNewline);
    } else if c == '"' {
        lemma_run_end(src, i, CharClass::NotQuote);
        let e = run_end(src, i, CharClass::NotQuote);
        lemma_newlines_bound(src.subrange(i, e));
    } else if is_digit(c) {
        lemma_run_end(src, i, CharClass::Digit);
        let a = run_end(src, i, CharClass::Digit);
        if a + 1 < src.len() && src[a] == '.' && is_digit(src[a + 1]) {
            lemma_run_end(src, a + 1, CharClass::Digit);
        }
    } else if is_alpha(c) {
        lemma_run_end(src, i, CharClass::AlphaNumeric);
    }
}

/// The sequence with the one value of `o`, or the empty one.
pub open spec fn opt_seq<T>(o: Option<T>) -> Seq<T> {
    match o {
        Some(x) => seq![x],
        None => Seq::empty(),
    }
}

/// What scanning from a position to the end produces.
pub ghost struct Lexed {
    pub tokens: Seq<TokenView>,
    pub errors: Seq<(nat, ErrorType)>,
    pub line: nat,
}

/// Scanning `src` from `pos` on line `line` to the end: step after step.
pub open spec fn lex_from(src: Seq<char>, pos: int, line: nat) -> Lexed
    decreases src.len() - pos,
    via lex_from_decreases
{
    if 0 <= pos < src.len() {
        let s = scan_step(src, pos, line);
        let rest = lex_from(src, s.next, s.line);
        Lexed {
            tokens: opt_seq(s.token) + rest.tokens,
            errors: opt_seq(s.error) + rest.errors,
            line: rest.line,
        }
    } else {
        Lexed { tokens: Seq::empty(), errors: Seq::empty(), line }
    }
}

#[via_fn]
proof fn lex_from_decreases(src: Seq<char>, pos: int, line: nat) {
    if 0 <= pos < src.len() {
        lemma_step_bounds(src, pos, line);
    }
}

/// Scanning the whole of `src` from line 1.
pub open spec fn lex(src: Seq<char>) -> Lexed {
    lex_from(src, 0, 1)
}

/// The terminal token, stamped with the line on which the input ended.
pub open spec fn end_of_input(line: nat) -> TokenView {
    TokenView { kind: KindView::EOF, lexeme: Seq::empty(), line }
}

/// The full token sequence of `src`: the tokens of its lexemes, then the end marker.
pub open spec fn scan_all(src: Seq<char>) -> Seq<TokenView> {
    lex(src).tokens.push(end_of_input(lex(src).line))
}

} // verus!
