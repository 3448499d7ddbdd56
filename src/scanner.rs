//! The scanning engine: a cursor over the source characters that emits
//! tokens one lexeme at a time and records diagnostics without stopping.

use crate::error::{Diagnostic, ErrorType};
use crate::grammar::{
    is_alpha, is_alphanumeric, is_digit, lemma_newlines_bound, lemma_run_end, lemma_step_bounds, lex, lex_from,
    literal_value, lookup, newlines, next_is, number_end, opt_seq, reserved_words, run_end,
    scan_all, scan_step, CharClass,
};
use crate::text::{chars_of, string_of_range};
use crate::token::{token_views, KindView, NumberValue, Token, TokenType, TokenView};
use vstd::prelude::*;

verus! {

/// The model of a diagnostic: its line and its kind.
pub open spec fn diagnostic_view(d: Diagnostic) -> (nat, ErrorType) {
    (d.line as nat, d.error_type)
}

/// The models of a sequence of diagnostics.
pub open spec fn diagnostic_views(ds: Seq<Diagnostic>) -> Seq<(nat, ErrorType)> {
    ds.map_values(|d: Diagnostic| diagnostic_view(d))
}

/// The model of an optional token.
pub open spec fn token_opt_view(t: Option<Token>) -> Option<TokenView> {
    match t {
        Some(t) => Some(t@),
        None => None,
    }
}

/// Scans one source text. A scanner is made for one scan job: it owns the
/// text, the reserved-word table, the cursor and what has been produced.
pub struct Scanner {
    contents: String,
    chars: Vec<char>,
    tokens: Vec<Token>,
    errors: Vec<Diagnostic>,
    reserved_words: Vec<(Vec<char>, TokenType)>,
    start: usize,
    current: usize,
    line: usize,
    finished: bool,
}

impl Scanner {
    /// The source text, as characters.
    pub closed spec fn source(&self) -> Seq<char> {
        self.chars@
    }

    /// The tokens produced so far.
    pub closed spec fn token_views(&self) -> Seq<TokenView> {
        token_views(self.tokens@)
    }

    /// The diagnostics recorded so far.
    pub closed spec fn error_views(&self) -> Seq<(nat, ErrorType)> {
        diagnostic_views(self.errors@)
    }

    /// Whether the scan has been run to the end.
    pub closed spec fn is_finished(&self) -> bool {
        self.finished
    }

    closed spec fn reserved_view(&self) -> Seq<(Seq<char>, KindView)> {
        self.reserved_words@.map_values(|p: (Vec<char>, TokenType)| (p.0@, p.1@))
    }

    /// Everything but the cursor and the line counter is as in `other`.
    closed spec fn same_except_cursor(&self, other: &Scanner) -> bool {
        &&& self.contents == other.contents
        &&& self.chars == other.chars
        &&& self.reserved_words == other.reserved_words
        &&& self.tokens == other.tokens
        &&& self.errors == other.errors
        &&& self.start == other.start
        &&& self.finished == other.finished
    }

    /// The offset of the first character of the lexeme being recognised.
    pub closed spec fn lexeme_start(&self) -> nat {
        self.start as nat
    }

    /// The offset of the next character to consume.
    pub closed spec fn cursor(&self) -> nat {
        self.current as nat
    }

    /// The current 1-based line.
    pub closed spec fn line_number(&self) -> nat {
        self.line as nat
    }

    /// The fixed parts of the state: the text, its characters and the table.
    closed spec fn fixed(&self) -> bool {
        &&& self.chars@ == self.contents@
        &&& self.chars@.len() < usize::MAX
        &&& self.reserved_view() == reserved_words()
    }

    /// Part way through a scan: what has been produced, followed by what the
    /// rest of the text produces, is what the whole text produces.
    closed spec fn in_progress(&self) -> bool {
        let rest = lex_from(self.chars@, self.current as int, self.line as nat);
        &&& self.fixed()
        &&& self.start <= self.current <= self.chars@.len()
        &&& 1 <= self.line <= self.current + 1
        &&& self.token_views() + rest.tokens == lex(self.chars@).tokens
        &&& self.error_views() + rest.errors == lex(self.chars@).errors
        &&& rest.line == lex(self.chars@).line
    }

    /// The scanner is well formed: fresh, or finished with the whole result.
    pub closed spec fn wf(&self) -> bool {
        &&& self.fixed()
        &&& self.start <= self.current <= self.chars@.len()
        &&& 1 <= self.line
        &&& if self.finished {
            &&& self.token_views() == scan_all(self.chars@)
            &&& self.error_views() == lex(self.chars@).errors
        } else {
            &&& self.start == 0
            &&& self.current == 0
            &&& self.line == 1
            &&& self.tokens@.len() == 0
            &&& self.errors@.len() == 0
        }
    }

    /// At the first character of a lexeme, about to consume it.
    closed spec fn at_lexeme(&self) -> bool {
        &&& self.fixed()
        &&& self.start == self.current < self.chars@.len()
        &&& 1 <= self.line <= self.current + 1
    }

    /// Just past the first character of a lexeme.
    closed spec fn in_lexeme(&self) -> bool {
        &&& self.fixed()
        &&& self.start < self.chars@.len()
        &&& self.current == self.start + 1
        &&& 1 <= self.line <= self.current
    }

    /// `next` is `prev` after one scan step from `prev.start`, which returned `r`.
    closed spec fn stepped(prev: &Scanner, next: &Scanner, r: Option<Token>) -> bool {
        let s = scan_step(prev.chars@, prev.start as int, prev.line as nat);
        &&& next.contents == prev.contents
        &&& next.chars == prev.chars
        &&& next.reserved_words == prev.reserved_words
        &&& next.tokens == prev.tokens
        &&& next.start == prev.start
        &&& next.finished == prev.finished
        &&& next.current == s.next
        &&& next.line == s.line
        &&& next.error_views() == match s.error {
            Some(d) => prev.error_views().push(d),
            None => prev.error_views(),
        }
        &&& token_opt_view(r) == s.token
    }

    /// A scanner over `contents`, with nothing scanned yet.
    pub fn new(contents: &str) -> (r: Scanner)
        requires
            contents@.len() < usize::MAX,
        ensures
            r.wf(),
            !r.is_finished(),
            r.source() == contents@,
            r.lexeme_start() == 0,
            r.cursor() == 0,
            r.line_number() == 1,
            r.token_views().len() == 0,
            r.error_views().len() == 0,
    {
        let chars = chars_of(contents);
        let mut table: Vec<(Vec<char>, TokenType)> = Vec::new();
        table.push((chars_of("and"), TokenType::And));
        table.push((chars_of("class"), TokenType::Class));
        table.push((chars_of("else"), TokenType::Else));
        table.push((chars_of("false"), TokenType::False));
        table.push((chars_of("for"), TokenType::For));
        table.push((chars_of("fun"), TokenType::Fun));
        table.push((chars_of("if"), TokenType::If));
        table.push((chars_of("nil"), TokenType::Nil));
        table.push((chars_of("or"), TokenType::Or));
        table.push((chars_of("print"), TokenType::Print));
        table.push((chars_of("return"), TokenType::Return));
        table.push((chars_of("super"), TokenType::Super));
        table.push((chars_of("this"), TokenType::This));
        table.push((chars_of("true"), TokenType::True));
        table.push((chars_of("var"), TokenType::Var));
        table.push((chars_of("while"), TokenType::While));
        let r = Scanner {
            contents: String::from_str(contents),
            chars,
            tokens: Vec::new(),
            errors: Vec::new(),
            reserved_words: table,
            start: 0,
            current: 0,
            line: 1,
            finished: false,
        };
        assert(r.reserved_view() =~= reserved_words());
        r
    }

    fn is_at_end(&self) -> (r: bool)
        ensures
            r == (self.current >= self.chars@.len()),
    {
        self.current >= self.chars.len()
    }

    fn advance(&mut self) -> (c: char)
        requires
            old(self).fixed(),
            old(self).current < old(self).chars@.len(),
        ensures
            *final(self) == (Scanner { current: (old(self).current + 1) as usize, ..*old(self) }),
            c == old(self).chars@[old(self).current as int],
    {
        let c = self.chars[self.current];
        self.current = self.current + 1;
        c
    }

    fn match_char(&mut self, expected: char) -> (r: bool)
        requires
            old(self).fixed(),
        ensures
            r == next_is(old(self).chars@, old(self).current as int, expected),
            *final(self) == (Scanner {
                current: if r {
                    (old(self).current + 1) as usize
                } else {
                    old(self).current
                },
                ..*old(self)
            }),
    {
        if self.is_at_end() {
            return false;
        }
        if self.chars[self.current] != expected {
            return false;
        }
        self.current = self.current + 1;
        true
    }

    /// The character under the cursor, or `\0` at the end.
    fn peek_char(&self) -> (c: char)
        ensures
            c == if self.current < self.chars@.len() {
                self.chars@[self.current as int]
            } else {
                '\0'
            },
    {
        if self.is_at_end() {
            return '\0';
        }
        self.chars[self.current]
    }

    /// The character one past the cursor, or `\0` past the end.
    fn peek_next_char(&self) -> (c: char)
        ensures
            c == if self.current + 1 < self.chars@.len() {
                self.chars@[self.current + 1]
            } else {
                '\0'
            },
    {
        if self.current >= self.chars.len() || self.current + 1 >= self.chars.len() {
            return '\0';
        }
        self.chars[self.current + 1]
    }

    fn is_digit(&self, c: char) -> (r: bool)
        ensures
            r == is_digit(c),
    {
        c >= '0' && c <= '9'
    }

    fn is_alpha(&self, c: char) -> (r: bool)
        ensures
            r == is_alpha(c),
    {
        c >= 'a' && c <= 'z' || c == '_'
    }

    fn is_alphanumeric(&self, c: char) -> (r: bool)
        ensures
            r == is_alphanumeric(c),
    {
        self.is_digit(c) || self.is_alpha(c)
    }

    fn new_line(&mut self)
        requires
            old(self).line < usize::MAX,
        ensures
            *final(self) == (Scanner { line: (old(self).line + 1) as usize, ..*old(self) }),
    {
        self.line = self.line + 1;
    }

    fn new_line_token(&mut self) -> (r: Option<Token>)
        requires
            old(self).line < usize::MAX,
        ensures
            *final(self) == (Scanner { line: (old(self).line + 1) as usize, ..*old(self) }),
            r is None,
    {
        self.new_line();
        None
    }

    /// A token of `token_type` for the lexeme `start..current` on the current line.
    fn new_token(&self, token_type: TokenType) -> (r: Option<Token>)
        requires
            self.start <= self.current <= self.chars@.len(),
        ensures
            token_opt_view(r) == Some(
                TokenView {
                    kind: token_type@,
                    lexeme: self.chars@.subrange(self.start as int, self.current as int),
                    line: self.line as nat,
                },
            ),
    {
        let lexeme = string_of_range(&self.chars, self.start, self.current);
        Some(Token::new(token_type, lexeme, self.line))
    }

    fn report(&mut self, error_type: ErrorType)
        ensures
            final(self).error_views() == old(self).error_views().push((old(self).line as nat, error_type)),
            *final(self) == (Scanner { errors: final(self).errors, ..*old(self) }),
    {
        let d = Diagnostic { line: self.line, error_type };
        self.errors.push(d);
        assert(self.error_views() =~= old(self).error_views().push((old(self).line as nat, error_type)));
    }
    /// Whether `chars[start..current]` spells `w`.
    fn span_equals(&self, w: &Vec<char>) -> (r: bool)
        requires
            self.start <= self.current <= self.chars@.len(),
        ensures
            r == (self.chars@.subrange(self.start as int, self.current as int) == w@),
    {
        let ghost span = self.chars@.subrange(self.start as int, self.current as int);
        if self.current - self.start != w.len() {
            assert(span.len() != w@.len());
            return false;
        }
        let mut k: usize = 0;
        while k < w.len()
            invariant
                k <= w@.len(),
                w@.len() == self.current - self.start,
                self.start <= self.current <= self.chars@.len(),
                span == self.chars@.subrange(self.start as int, self.current as int),
                forall|j: int| 0 <= j < k ==> span[j] == w@[j],
            decreases w.len() - k,
        {
            if self.chars[self.start + k] != w[k] {
                assert(span[k as int] != w@[k as int]);
                return false;
            }
            k = k + 1;
        }
        assert(span =~= w@);
        true
    }

    /// The reserved category spelled by `chars[start..current]`, if any.
    fn lookup_reserved(&self) -> (r: Option<TokenType>)
        requires
            self.fixed(),
            self.start <= self.current <= self.chars@.len(),
        ensures
            match r {
                Some(t) => lookup(reserved_words(), self.chars@.subrange(self.start as int, self.current as int)) == Some(t@),
                None => lookup(reserved_words(), self.chars@.subrange(self.start as int, self.current as int)) is None,
            },
    {
        let ghost w = self.chars@.subrange(self.start as int, self.current as int);
        let ghost table = reserved_words();
        let mut i: usize = 0;
        assert(table.subrange(0, table.len() as int) =~= table);
        while i < self.reserved_words.len()
            invariant
                self.fixed(),
                self.start <= self.current <= self.chars@.len(),
                i <= self.reserved_words@.len(),
                table == reserved_words(),
                w == self.chars@.subrange(self.start as int, self.current as int),
                table.len() == self.reserved_words@.len(),
                lookup(table, w) == lookup(table.subrange(i as int, table.len() as int), w),
            decreases self.reserved_words.len() - i,
        {
            let ghost rest = table.subrange(i as int, table.len() as int);
            assert(rest[0] == table[i as int]);
            assert(self.reserved_view()[i as int] == (self.reserved_words@[i as int].0@, self.reserved_words@[i as int].1@));
            assert(table[i as int] == (self.reserved_words@[i as int].0@, self.reserved_words@[i as int].1@));
            if self.span_equals(&self.reserved_words[i].0) {
                return Some(self.reserved_words[i].1.duplicate());
            }
            assert(rest.drop_first() =~= table.subrange(i + 1, table.len() as int));
            i = i + 1;
        }
        None
    }

    /// A string literal, after its opening quote.
    fn string_token(&mut self) -> (r: Option<Token>)
        requires
            old(self).in_lexeme(),
            old(self).chars@[old(self).start as int] == '"',
        ensures
            Scanner::stepped(old(self), final(self), r),
    {
        let ghost s0 = *self;
        let ghost src = self.chars@;
        let ghost i = self.current as int;
        let ghost e = run_end(src, i, CharClass::NotQuote);
        proof {
            lemma_run_end(src, i, CharClass::NotQuote);
            assert(src.subrange(i, i) =~= Seq::<char>::empty());
        }
        while self.peek_char() != '"' && !self.is_at_end()
            invariant
                self.fixed(),
                self.same_except_cursor(&s0),
                src == self.chars@,
                s0.start + 1 == i <= self.current <= e <= src.len(),
                run_end(src, self.current as int, CharClass::NotQuote) == e,
                1 <= s0.line <= i,
                self.line == s0.line + newlines(src.subrange(i, self.current as int)),
            decreases src.len() - self.current,
        {
            let ghost cur = self.current as int;
            proof {
                lemma_run_end(src, cur, CharClass::NotQuote);
                lemma_newlines_bound(src.subrange(i, cur));
                assert(src.subrange(i, cur + 1).drop_last() =~= src.subrange(i, cur));
            }
            if self.peek_char() == '\n' {
                self.new_line();
            }
            self.advance();
        }
        if self.is_at_end() {
            self.report(ErrorType::UnterminatedString);
            return None;
        }
        self.advance();
        let value = string_of_range(&self.chars, self.start + 1, self.current - 1);
        self.new_token(TokenType::String(value))
    }

    /// A number literal, after its first digit.
    fn number_token(&mut self) -> (r: Option<Token>)
        requires
            old(self).in_lexeme(),
            is_digit(old(self).chars@[old(self).start as int]),
        ensures
            Scanner::stepped(old(self), final(self), r),
    {
        let ghost s0 = *self;
        let ghost src = self.chars@;
        let ghost a = run_end(src, s0.start + 1, CharClass::Digit);
        proof {
            lemma_run_end(src, s0.start + 1, CharClass::Digit);
        }
        while self.is_digit(self.peek_char())
            invariant
                self.fixed(),
                self.same_except_cursor(&s0),
                self.line == s0.line,
                src == self.chars@,
                s0.start + 1 <= self.current <= a <= src.len(),
                run_end(src, self.current as int, CharClass::Digit) == a,
            decreases src.len() - self.current,
        {
            proof {
                lemma_run_end(src, self.current as int, CharClass::Digit);
            }
            self.advance();
        }
        let point = self.current;
        if self.peek_char() == '.' && self.is_digit(self.peek_next_char()) {
            self.advance();
            let ghost b = run_end(src, point + 1, CharClass::Digit);
            proof {
                lemma_run_end(src, point + 1, CharClass::Digit);
            }
            while self.is_digit(self.peek_char())
                invariant
                    self.fixed(),
                    self.same_except_cursor(&s0),
                    self.line == s0.line,
                    src == self.chars@,
                    point + 1 <= self.current <= b <= src.len(),
                    run_end(src, self.current as int, CharClass::Digit) == b,
                decreases src.len() - self.current,
            {
                proof {
                    lemma_run_end(src, self.current as int, CharClass::Digit);
                }
                self.advance();
            }
        }
        let end = self.current;
        assert(end == number_end(src, s0.start as int));
        let mut acc: u64 = 0;
        let mut overflow = false;
        let mut k: usize = self.start;
        proof {
            assert(src.subrange(s0.start as int, s0.start as int) =~= Seq::<char>::empty());
        }
        while k < end
            invariant
                self.fixed(),
                src == self.chars@,
                s0.start <= k <= end <= src.len(),
                self.start == s0.start,
                !overflow ==> acc as nat == literal_value(src.subrange(s0.start as int, k as int)),
                overflow ==> literal_value(src.subrange(s0.start as int, k as int)) > u64::MAX,
            decreases end - k,
        {
            let c = self.chars[k];
            let ghost before = literal_value(src.subrange(s0.start as int, k as int));
            proof {
                assert(src.subrange(s0.start as int, k + 1).drop_last() =~= src.subrange(s0.start as int, k as int));
                assert(before * 10 >= before) by (nonlinear_arith);
            }
            if self.is_digit(c) && !overflow {
                let d = (c as u32 - '0' as u32) as u64;
                match acc.checked_mul(10) {
                    Some(m) => match m.checked_add(d) {
                        Some(v) => {
                            acc = v;
                        },
                        None => {
                            overflow = true;
                        },
                    },
                    None => {
                        overflow = true;
                    },
                }
            }
            k = k + 1;
        }
        if overflow {
            self.report(ErrorType::NumberTooLarge);
            return None;
        }
        let scale = if end > point {
            end - point - 1
        } else {
            0
        };
        self.new_token(TokenType::Number(NumberValue { mantissa: acc, scale }))
    }

    /// An identifier or reserved word, after its first letter.
    fn identifier_token(&mut self) -> (r: Option<Token>)
        requires
            old(self).in_lexeme(),
            is_alpha(old(self).chars@[old(self).start as int]),
        ensures
            Scanner::stepped(old(self), final(self), r),
    {
        let ghost s0 = *self;
        let ghost src = self.chars@;
        let ghost e = run_end(src, s0.start + 1, CharClass::AlphaNumeric);
        proof {
            lemma_run_end(src, s0.start + 1, CharClass::AlphaNumeric);
        }
        while self.is_alphanumeric(self.peek_char())
            invariant
                self.fixed(),
                self.same_except_cursor(&s0),
                self.line == s0.line,
                src == self.chars@,
                s0.start + 1 <= self.current <= e <= src.len(),
                run_end(src, self.current as int, CharClass::AlphaNumeric) == e,
            decreases src.len() - self.current,
        {
            proof {
                lemma_run_end(src, self.current as int, CharClass::AlphaNumeric);
            }
            self.advance();
        }
        match self.lookup_reserved() {
            Some(kind) => self.new_token(kind),
            None => {
                let name = string_of_range(&self.chars, self.start, self.current);
                self.new_token(TokenType::Identifier(name))
            },
        }
    }

    /// One scan step from `start`: consumes a lexeme and returns its token,
    /// if it makes one; errors are recorded.
    fn scan_token(&mut self) -> (r: Option<Token>)
        requires
            old(self).at_lexeme(),
        ensures
            Scanner::stepped(old(self), final(self), r),
    {
        let c = self.advance();
        match c {
            '(' => self.new_token(TokenType::LeftParen),
            ')' => self.new_token(TokenType::RightParen),
            '{' => self.new_token(TokenType::LeftBrace),
            '}' => self.new_token(TokenType::RightBrace),
            ',' => self.new_token(TokenType::Comma),
            '.' => self.new_token(TokenType::Dot),
            '-' => self.new_token(TokenType::Minus),
            '+' => self.new_token(TokenType::Plus),
            ';' => self.new_token(TokenType::Semicolon),
            '*' => self.new_token(TokenType::Star),
            '\n' => self.new_line_token(),
            '!' => {
                if self.match_char('=') {
                    self.new_token(TokenType::BangEqual)
                } else {
                    self.new_token(TokenType::Bang)
                }
            },
            '=' => {
                if self.match_char('=') {
                    self.new_token(TokenType::EqualEqual)
                } else {
                    self.new_token(TokenType::Equal)
                }
            },
            '<' => {
                if self.match_char('=') {
                    self.new_token(TokenType::LessEqual)
                } else {
                    self.new_token(TokenType::Less)
                }
            },
            '>' => {
                if self.match_char('=') {
                    self.new_token(TokenType::GreaterEqual)
                } else {
                    self.new_token(TokenType::Greater)
                }
            },
            '/' => {
                if self.match_char('/') {
                    let ghost s0 = *self;
                    let ghost src = self.chars@;
                    let ghost e = run_end(src, s0.current as int, CharClass::NotNewline);
                    proof {
                        lemma_run_end(src, s0.current as int, CharClass::NotNewline);
                    }
                    while self.peek_char() != '\n' && !self.is_at_end()
                        invariant
                            self.fixed(),
                            self.same_except_cursor(&s0),
                            self.line == s0.line,
                            src == self.chars@,
                            s0.current <= self.current <= e <= src.len(),
                            run_end(src, self.current as int, CharClass::NotNewline) == e,
                        decreases src.len() - self.current,
                    {
                        proof {
                            lemma_run_end(src, self.current as int, CharClass::NotNewline);
                        }
                        self.advance();
                    }
                    None
                } else {
                    self.new_token(TokenType::Slash)
                }
            },
            ' ' | '\r' | '\t' => None,
            '"' => self.string_token(),
            _ => {
                if self.is_digit(c) {
                    self.number_token()
                } else if self.is_alpha(c) {
                    self.identifier_token()
                } else {
                    self.report(ErrorType::UnexpectedChar);
                    None
                }
            },
        }
    }
    /// Scans the whole text: one lexeme after another to the end, then the
    /// end marker stamped with the final line. Returns every token in source
    /// order. On a scanner that has already run, nothing is scanned again and
    /// no second end marker is added.
    pub fn scan_tokens(&mut self) -> (r: Vec<Token>)
        requires
            old(self).wf(),
        ensures
            final(self).wf(),
            final(self).is_finished(),
            final(self).source() == old(self).source(),
            final(self).token_views() == scan_all(old(self).source()),
            final(self).error_views() == lex(old(self).source()).errors,
            token_views(r@) == scan_all(old(self).source()),
    {
        if !self.finished {
            let ghost src = self.chars@;
            assert(self.token_views() + lex(src).tokens =~= lex(src).tokens);
            assert(self.error_views() + lex(src).errors =~= lex(src).errors);
            while !self.is_at_end()
                invariant
                    self.in_progress(),
                    self.chars@ == src,
                    !self.finished,
                decreases src.len() - self.current,
            {
                self.start = self.current;
                let ghost before = *self;
                let ghost step = scan_step(src, before.current as int, before.line as nat);
                let ghost rest = lex_from(src, step.next, step.line);
                proof {
                    lemma_step_bounds(src, before.current as int, before.line as nat);
                }
                let t = self.scan_token();
                match t {
                    Some(tok) => {
                        self.tokens.push(tok);
                    },
                    None => {},
                }
                proof {
                    assert(self.token_views() =~= before.token_views() + opt_seq(step.token));
                    assert(self.error_views() =~= before.error_views() + opt_seq(step.error));
                    assert(before.token_views() + (opt_seq(step.token) + rest.tokens) =~= self.token_views()
                        + rest.tokens);
                    assert(before.error_views() + (opt_seq(step.error) + rest.errors) =~= self.error_views()
                        + rest.errors);
                }
            }
            let ghost before = *self;
            let eof = Token::new(TokenType::EOF, String::new(), self.line);
            self.tokens.push(eof);
            self.finished = true;
            proof {
                assert(before.token_views() + Seq::<TokenView>::empty() =~= before.token_views());
                assert(before.error_views() + Seq::<(nat, ErrorType)>::empty() =~= before.error_views());
                assert(self.token_views() =~= scan_all(src));
            }
        }
        self.get_tokens()
    }

    /// The source text.
    pub fn get_contents(&self) -> (r: &str)
        requires
            self.wf(),
        ensures
            r@ == self.source(),
    {
        self.contents.as_str()
    }

    /// A copy of the tokens produced so far.
    pub fn get_tokens(&self) -> (r: Vec<Token>)
        ensures
            token_views(r@) == self.token_views(),
    {
        let mut r: Vec<Token> = Vec::new();
        let mut i: usize = 0;
        while i < self.tokens.len()
            invariant
                i <= self.tokens@.len(),
                r@.len() == i,
                forall|j: int| 0 <= j < i ==> #[trigger] r@[j]@ == self.tokens@[j]@,
            decreases self.tokens.len() - i,
        {
            r.push(self.tokens[i].duplicate());
            i = i + 1;
        }
        assert(token_views(r@) =~= self.token_views());
        r
    }

    /// A copy of the diagnostics recorded so far, in the order they were found.
    pub fn get_errors(&self) -> (r: Vec<Diagnostic>)
        ensures
            diagnostic_views(r@) == self.error_views(),
    {
        let r = self.errors.clone();
        assert(r@ =~= self.errors@);
        r
    }
}

} // verus!
