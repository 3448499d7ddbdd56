//! The token model: lexical categories and the record produced per lexeme.

use crate::text::{decimal_chars, decimal_digits, string_of_range};
use vstd::prelude::*;

verus! {

broadcast use vstd::string::group_string_axioms;

/// The value of a numeric literal: `mantissa / 10^scale`, where `scale` is
/// the number of digits written after the decimal point.
#[derive(Debug, Clone, Copy, PartialEq, Eq, Structural)]
pub struct NumberValue {
    pub mantissa: u64,
    pub scale: usize,
}

/// The lexical category of a token; literals and identifiers carry their payload.
#[derive(Debug, Clone)]
pub enum TokenType {
    LeftParen,
    RightParen,
    LeftBrace,
    RightBrace,
    Comma,
    Dot,
    Minus,
    Plus,
    Semicolon,
    Slash,
    Star,
    Bang,
    BangEqual,
    Equal,
    EqualEqual,
    Greater,
    GreaterEqual,
    Less,
    LessEqual,
    Identifier(String),
    String(String),
    Number(NumberValue),
    And,
    Class,
    Else,
    False,
    Fun,
    For,
    If,
    Nil,
    Or,
    Print,
    Return,
    Super,
    This,
    True,
    Var,
    While,
    EOF,
}

/// The mathematical model of a `TokenType`: strings become character sequences.
pub ghost enum KindView {
    LeftParen,
    RightParen,
    LeftBrace,
    RightBrace,
    Comma,
    Dot,
    Minus,
    Plus,
    Semicolon,
    Slash,
    Star,
    Bang,
    BangEqual,
    Equal,
    EqualEqual,
    Greater,
    GreaterEqual,
    Less,
    LessEqual,
    Identifier(Seq<char>),
    String(Seq<char>),
    Number(NumberValue),
    And,
    Class,
    Else,
    False,
    Fun,
    For,
    If,
    Nil,
    Or,
    Print,
    Return,
    Super,
    This,
    True,
    Var,
    While,
    EOF,
}

impl View for TokenType {
    type V = KindView;

    open spec fn view(&self) -> KindView {
        match self {
            TokenType::LeftParen => KindView::LeftParen,
            TokenType::RightParen => KindView::RightParen,
            TokenType::LeftBrace => KindView::LeftBrace,
            TokenType::RightBrace => KindView::RightBrace,
            TokenType::Comma => KindView::Comma,
            TokenType::Dot => KindView::Dot,
            TokenType::Minus => KindView::Minus,
            TokenType::Plus => KindView::Plus,
            TokenType::Semicolon => KindView::Semicolon,
            TokenType::Slash => KindView::Slash,
            TokenType::Star => KindView::Star,
            TokenType::Bang => KindView::Bang,
            TokenType::BangEqual => KindView::BangEqual,
            TokenType::Equal => KindView::Equal,
            TokenType::EqualEqual => KindView::EqualEqual,
            TokenType::Greater => KindView::Greater,
            TokenType::GreaterEqual => KindView::GreaterEqual,
            TokenType::Less => KindView::Less,
            TokenType::LessEqual => KindView::LessEqual,
            TokenType::And => KindView::And,
            TokenType::Class => KindView::Class,
            TokenType::Else => KindView::Else,
            TokenType::False => KindView::False,
            TokenType::Fun => KindView::Fun,
            TokenType::For => KindView::For,
            TokenType::If => KindView::If,
            TokenType::Nil => KindView::Nil,
            TokenType::Or => KindView::Or,
            TokenType::Print => KindView::Print,
            TokenType::Return => KindView::Return,
            TokenType::Super => KindView::Super,
            TokenType::This => KindView::This,
            TokenType::True => KindView::True,
            TokenType::Var => KindView::Var,
            TokenType::While => KindView::While,
            TokenType::EOF => KindView::EOF,
            TokenType::Identifier(s) => KindView::Identifier(s@),
            TokenType::String(s) => KindView::String(s@),
            TokenType::Number(n) => KindView::Number(*n),
        }
    }
}

/// The name under which a category is rendered.
pub open spec fn kind_name(k: KindView) -> Seq<char> {
    match k {
        KindView::LeftParen => "LeftParen"@,
        KindView::RightParen => "RightParen"@,
        KindView::LeftBrace => "LeftBrace"@,
        KindView::RightBrace => "RightBrace"@,
        KindView::Comma => "Comma"@,
        KindView::Dot => "Dot"@,
        KindView::Minus => "Minus"@,
        KindView::Plus => "Plus"@,
        KindView::Semicolon => "Semicolon"@,
        KindView::Slash => "Slash"@,
        KindView::Star => "Star"@,
        KindView::Bang => "Bang"@,
        KindView::BangEqual => "BangEqual"@,
        KindView::Equal => "Equal"@,
        KindView::EqualEqual => "EqualEqual"@,
        KindView::Greater => "Greater"@,
        KindView::GreaterEqual => "GreaterEqual"@,
        KindView::Less => "Less"@,
        KindView::LessEqual => "LessEqual"@,
        KindView::And => "And"@,
        KindView::Class => "Class"@,
        KindView::Else => "Else"@,
        KindView::False => "False"@,
        KindView::Fun => "Fun"@,
        KindView::For => "For"@,
        KindView::If => "If"@,
        KindView::Nil => "Nil"@,
        KindView::Or => "Or"@,
        KindView::Print => "Print"@,
        KindView::Return => "Return"@,
        KindView::Super => "Super"@,
        KindView::This => "This"@,
        KindView::True => "True"@,
        KindView::Var => "Var"@,
        KindView::While => "While"@,
        KindView::EOF => "EOF"@,
        KindView::Identifier(_) => "Identifier"@,
        KindView::String(_) => "String"@,
        KindView::Number(_) => "Number"@,
    }
}

/// `n` zero characters.
pub open spec fn zeros(n: nat) -> Seq<char> {
    Seq::new(n, |i: int| '0')
}

/// The digits of a mantissa, left-padded with zeros so that at least one
/// digit stands before the decimal point.
pub open spec fn padded_digits(v: NumberValue) -> Seq<char> {
    let d = decimal_digits(v.mantissa as nat);
    if d.len() <= v.scale {
        zeros((v.scale + 1 - d.len()) as nat) + d
    } else {
        d
    }
}

/// The decimal text of a number: `125` with scale 1 reads `12.5`.
pub open spec fn number_text(v: NumberValue) -> Seq<char> {
    if v.scale == 0 {
        decimal_digits(v.mantissa as nat)
    } else {
        let p = padded_digits(v);
        p.subrange(0, p.len() - v.scale) + seq!['.'] + p.subrange(p.len() - v.scale, p.len() as int)
    }
}

/// The literal payload of a category as text: empty but for strings and numbers.
pub open spec fn payload_text(k: KindView) -> Seq<char> {
    match k {
        KindView::String(s) => s,
        KindView::Number(n) => number_text(n),
        _ => Seq::empty(),
    }
}

impl TokenType {
    /// The name under which this category is rendered.
    pub fn name(&self) -> (r: &'static str)
        ensures
            r@ == kind_name(self@),
    {
        match self {
            TokenType::LeftParen => "LeftParen",
            TokenType::RightParen => "RightParen",
            TokenType::LeftBrace => "LeftBrace",
            TokenType::RightBrace => "RightBrace",
            TokenType::Comma => "Comma",
            TokenType::Dot => "Dot",
            TokenType::Minus => "Minus",
            TokenType::Plus => "Plus",
            TokenType::Semicolon => "Semicolon",
            TokenType::Slash => "Slash",
            TokenType::Star => "Star",
            TokenType::Bang => "Bang",
            TokenType::BangEqual => "BangEqual",
            TokenType::Equal => "Equal",
            TokenType::EqualEqual => "EqualEqual",
            TokenType::Greater => "Greater",
            TokenType::GreaterEqual => "GreaterEqual",
            TokenType::Less => "Less",
            TokenType::LessEqual => "LessEqual",
            TokenType::And => "And",
            TokenType::Class => "Class",
            TokenType::Else => "Else",
            TokenType::False => "False",
            TokenType::Fun => "Fun",
            TokenType::For => "For",
            TokenType::If => "If",
            TokenType::Nil => "Nil",
            TokenType::Or => "Or",
            TokenType::Print => "Print",
            TokenType::Return => "Return",
            TokenType::Super => "Super",
            TokenType::This => "This",
            TokenType::True => "True",
            TokenType::Var => "Var",
            TokenType::While => "While",
            TokenType::EOF => "EOF",
            TokenType::Identifier(_) => "Identifier",
            TokenType::String(_) => "String",
            TokenType::Number(_) => "Number",
        }
    }

    /// A copy of this category with its payload.
    pub fn duplicate(&self) -> (r: TokenType)
        ensures
            r@ == self@,
    {
        match self {
            TokenType::LeftParen => TokenType::LeftParen,
            TokenType::RightParen => TokenType::RightParen,
            TokenType::LeftBrace => TokenType::LeftBrace,
            TokenType::RightBrace => TokenType::RightBrace,
            TokenType::Comma => TokenType::Comma,
            TokenType::Dot => TokenType::Dot,
            TokenType::Minus => TokenType::Minus,
            TokenType::Plus => TokenType::Plus,
            TokenType::Semicolon => TokenType::Semicolon,
            TokenType::Slash => TokenType::Slash,
            TokenType::Star => TokenType::Star,
            TokenType::Bang => TokenType::Bang,
            TokenType::BangEqual => TokenType::BangEqual,
            TokenType::Equal => TokenType::Equal,
            TokenType::EqualEqual => TokenType::EqualEqual,
            TokenType::Greater => TokenType::Greater,
            TokenType::GreaterEqual => TokenType::GreaterEqual,
            TokenType::Less => TokenType::Less,
            TokenType::LessEqual => TokenType::LessEqual,
            TokenType::And => TokenType::And,
            TokenType::Class => TokenType::Class,
            TokenType::Else => TokenType::Else,
            TokenType::False => TokenType::False,
            TokenType::Fun => TokenType::Fun,
            TokenType::For => TokenType::For,
            TokenType::If => TokenType::If,
            TokenType::Nil => TokenType::Nil,
            TokenType::Or => TokenType::Or,
            TokenType::Print => TokenType::Print,
            TokenType::Return => TokenType::Return,
            TokenType::Super => TokenType::Super,
            TokenType::This => TokenType::This,
            TokenType::True => TokenType::True,
            TokenType::Var => TokenType::Var,
            TokenType::While => TokenType::While,
            TokenType::EOF => TokenType::EOF,
            TokenType::Identifier(s) => TokenType::Identifier(s.clone()),
            TokenType::String(s) => TokenType::String(s.clone()),
            TokenType::Number(n) => TokenType::Number(*n),
        }
    }
}

/// The decimal text of a number.
pub fn render_number(v: NumberValue) -> (r: String)
    ensures
        r@ == number_text(v),
{
    let d = decimal_chars(v.mantissa);
    if v.scale == 0 {
        return string_of_range(&d, 0, d.len());
    }
    let mut p: Vec<char> = Vec::new();
    if d.len() <= v.scale {
        let pad = v.scale - d.len() + 1;
        let mut i: usize = 0;
        while i < pad
            invariant
                i <= pad,
                p@ == zeros(i as nat),
            decreases pad - i,
        {
            p.push('0');
            i = i + 1;
            assert(p@ =~= zeros(i as nat));
        }
    }
    let mut j: usize = 0;
    let ghost p0 = p@;
    while j < d.len()
        invariant
            j <= d@.len(),
            p@ == p0 + d@.subrange(0, j as int),
            p0.len() <= v.scale + 1,
        decreases d.len() - j,
    {
        p.push(d[j]);
        j = j + 1;
        assert(p@ =~= p0 + d@.subrange(0, j as int));
    }
    assert(d@.subrange(0, d@.len() as int) =~= d@);
    assert(p@ == padded_digits(v));
    let cut = p.len() - v.scale;
    let mut r = string_of_range(&p, 0, cut);
    r.append(".");
    let tail = string_of_range(&p, cut, p.len());
    r.append(tail.as_str());
    proof {
        reveal_strlit(".");
        assert(r@ =~= number_text(v));
    }
    r
}

/// One token: its category, the source text it was made from, and the
/// 1-based line on which it was completed.
#[derive(Debug, Clone)]
pub struct Token {
    token_type: TokenType,
    lexeme: String,
    line: usize,
}

/// The mathematical model of a token.
pub ghost struct TokenView {
    pub kind: KindView,
    pub lexeme: Seq<char>,
    pub line: nat,
}

impl View for Token {
    type V = TokenView;

    closed spec fn view(&self) -> TokenView {
        TokenView { kind: self.token_type@, lexeme: self.lexeme@, line: self.line as nat }
    }
}

/// The models of a sequence of tokens.
pub open spec fn token_views(ts: Seq<Token>) -> Seq<TokenView> {
    ts.map_values(|t: Token| t@)
}

/// What std's `Debug` writes for a string: the text in double quotes, with
/// quotes, backslashes and control characters escaped.
pub uninterp spec fn debug_quoted(s: Seq<char>) -> Seq<char>;

/// Relies on `<str as Debug>::fmt`, through `format!("{:?}")`: the quoted,
/// escaped form of a string, which depends on its characters alone.
#[verifier::external_body]
fn debug_string(s: &str) -> (r: String)
    ensures
        r@ == debug_quoted(s@),
{
    format!("{:?}", s)
}

/// The debug form of a category, given the quoted form of a text payload:
/// `LeftParen`, `Identifier(<quoted>)`, `String(<quoted>)`, `Number(12.5)`.
pub open spec fn kind_text_with(k: KindView, quoted: Seq<char>) -> Seq<char> {
    match k {
        KindView::String(_) => kind_name(k) + seq!['('] + quoted + seq![')'],
        KindView::Identifier(_) => kind_name(k) + seq!['('] + quoted + seq![')'],
        KindView::Number(n) => kind_name(k) + seq!['('] + number_text(n) + seq![')'],
        _ => kind_name(k),
    }
}

/// The quoted form of a category's text payload; empty where it has none.
pub open spec fn quoted_payload(k: KindView) -> Seq<char> {
    match k {
        KindView::String(s) => debug_quoted(s),
        KindView::Identifier(s) => debug_quoted(s),
        _ => Seq::empty(),
    }
}

/// The rendering of a token, given the quoted form of its text payload:
/// `<kind> <lexeme> <payload>`.
pub open spec fn token_text_with(t: TokenView, quoted: Seq<char>) -> Seq<char> {
    kind_text_with(t.kind, quoted) + seq![' '] + t.lexeme + seq![' '] + payload_text(t.kind)
}

/// The debug rendering of a token: `<kind> <lexeme> <payload>`, the kind in
/// its debug form with its value.
pub open spec fn token_text(t: TokenView) -> Seq<char> {
    token_text_with(t, quoted_payload(t.kind))
}

impl Token {
    /// A token of `token_type` made from `lexeme`, completed on `line`.
    pub fn new(token_type: TokenType, lexeme: String, line: usize) -> (r: Token)
        ensures
            r@ == (TokenView { kind: token_type@, lexeme: lexeme@, line: line as nat }),
    {
        Token { token_type, lexeme, line }
    }

    /// Renders the token as `<kind> <lexeme> <payload>`, where `quoted` stands
    /// for the quoted form of a string or identifier payload in the kind.
    pub fn render_with(&self, quoted: &str) -> (r: String)
        ensures
            r@ == token_text_with(self@, quoted@),
    {
        let mut r = String::from_str(self.token_type.name());
        match &self.token_type {
            TokenType::String(_) => {
                r.append("(");
                r.append(quoted);
                r.append(")");
            },
            TokenType::Identifier(_) => {
                r.append("(");
                r.append(quoted);
                r.append(")");
            },
            TokenType::Number(n) => {
                let t = render_number(*n);
                r.append("(");
                r.append(t.as_str());
                r.append(")");
            },
            _ => {},
        }
        r.append(" ");
        r.append(self.lexeme.as_str());
        r.append(" ");
        match &self.token_type {
            TokenType::String(s) => {
                r.append(s.as_str());
            },
            TokenType::Number(n) => {
                let t = render_number(*n);
                r.append(t.as_str());
            },
            _ => {},
        }
        proof {
            reveal_strlit(" ");
            reveal_strlit("(");
            reveal_strlit(")");
            assert(r@ =~= token_text_with(self@, quoted@));
        }
        r
    }

    /// Renders the token as `<kind> <lexeme> <payload>`: the kind in its debug
    /// form with its value (`Number(12.5)`, `String("hi")`), the payload being
    /// the text of a string or number literal and empty otherwise.
    pub fn to_string(&self) -> (r: String)
        ensures
            r@ == token_text(self@),
    {
        let quoted = match &self.token_type {
            TokenType::String(s) => debug_string(s.as_str()),
            TokenType::Identifier(s) => debug_string(s.as_str()),
            _ => String::new(),
        };
        self.render_with(quoted.as_str())
    }

    /// A copy of this token.
    pub fn duplicate(&self) -> (r: Token)
        ensures
            r@ == self@,
    {
        Token { token_type: self.token_type.duplicate(), lexeme: self.lexeme.clone(), line: self.line }
    }

    /// The category of this token.
    pub fn token_type(&self) -> (r: &TokenType)
        ensures
            r@ == self@.kind,
    {
        &self.token_type
    }

    /// The source text this token was made from.
    pub fn lexeme(&self) -> (r: &str)
        ensures
            r@ == self@.lexeme,
    {
        self.lexeme.as_str()
    }

    /// The line on which this token was completed.
    pub fn line(&self) -> (r: usize)
        ensures
            r as nat == self@.line,
    {
        self.line
    }
}

} // verus!
