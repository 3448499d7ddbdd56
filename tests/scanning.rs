use lox_lexer::error::{Diagnostic, ErrorType};
use lox_lexer::scanner::Scanner;
use lox_lexer::token::{NumberValue, Token, TokenType};

fn scan(src: &str) -> (Vec<Token>, Vec<Diagnostic>) {
    let mut scanner = Scanner::new(src);
    let tokens = scanner.scan_tokens();
    (tokens, scanner.get_errors())
}

fn is_eof(t: &Token) -> bool {
    matches!(t.token_type(), TokenType::EOF)
}

#[test]
fn every_scan_ends_with_one_end_marker() {
    for src in ["", "x", "(){}", "\"open", "@#$", "1.2.3", "// only a comment", "var a = 1;\n"] {
        let (tokens, _) = scan(src);
        assert!(!tokens.is_empty());
        assert!(is_eof(tokens.last().unwrap()));
        assert_eq!(tokens.iter().filter(|t| is_eof(t)).count(), 1);
    }
}

#[test]
fn whitespace_alone_gives_only_the_end_marker() {
    let (tokens, errors) = scan(" \t\r\n  \n");
    assert_eq!(tokens.len(), 1);
    assert!(is_eof(&tokens[0]));
    assert_eq!(tokens[0].line(), 3);
    assert!(errors.is_empty());
    let (tokens, _) = scan("");
    assert_eq!(tokens.len(), 1);
    assert_eq!(tokens[0].line(), 1);
}

#[test]
fn string_literal_payload_has_no_quotes() {
    let (tokens, errors) = scan("\"hello\"");
    assert_eq!(tokens.len(), 2);
    assert!(matches!(tokens[0].token_type(), TokenType::String(s) if s == "hello"));
    assert_eq!(tokens[0].lexeme(), "\"hello\"");
    assert!(errors.is_empty());
}

#[test]
fn integer_literal_value() {
    let (tokens, _) = scan("123");
    assert_eq!(tokens.len(), 2);
    assert!(matches!(tokens[0].token_type(),
        TokenType::Number(n) if *n == NumberValue { mantissa: 123, scale: 0 }));
}

#[test]
fn fractional_literal_keeps_its_fraction() {
    let (tokens, _) = scan("12.5");
    assert_eq!(tokens.len(), 2);
    assert!(matches!(tokens[0].token_type(),
        TokenType::Number(n) if *n == NumberValue { mantissa: 125, scale: 1 }));
    assert_eq!(tokens[0].lexeme(), "12.5");
    assert_eq!(tokens[0].to_string(), "Number(12.5) 12.5 12.5");
}

#[test]
fn trailing_point_is_a_dot_token() {
    let (tokens, _) = scan("12.");
    assert_eq!(tokens.len(), 3);
    assert!(matches!(tokens[0].token_type(),
        TokenType::Number(n) if *n == NumberValue { mantissa: 12, scale: 0 }));
    assert!(matches!(tokens[1].token_type(), TokenType::Dot));
}

#[test]
fn number_too_large_is_reported() {
    let (tokens, errors) = scan("99999999999999999999 1");
    assert_eq!(tokens.len(), 2);
    assert!(matches!(tokens[0].token_type(),
        TokenType::Number(n) if *n == NumberValue { mantissa: 1, scale: 0 }));
    assert_eq!(errors, vec![Diagnostic { line: 1, error_type: ErrorType::NumberTooLarge }]);
    let (tokens, errors) = scan("18446744073709551615");
    assert!(matches!(tokens[0].token_type(),
        TokenType::Number(n) if n.mantissa == u64::MAX));
    assert!(errors.is_empty());
}

#[test]
fn reserved_word_is_not_an_identifier() {
    let (tokens, _) = scan("and");
    assert_eq!(tokens.len(), 2);
    assert!(matches!(tokens[0].token_type(), TokenType::And));
    let (tokens, _) = scan("andrew");
    assert_eq!(tokens.len(), 2);
    assert!(matches!(tokens[0].token_type(), TokenType::Identifier(s) if s == "andrew"));
    assert_eq!(tokens[0].lexeme(), "andrew");
}

#[test]
fn every_reserved_word_has_its_own_kind() {
    let (tokens, _) = scan("class else false for fun if nil or print return super this true var while");
    assert_eq!(tokens.len(), 16);
    assert!(matches!(tokens[0].token_type(), TokenType::Class));
    assert!(matches!(tokens[1].token_type(), TokenType::Else));
    assert!(matches!(tokens[2].token_type(), TokenType::False));
    assert!(matches!(tokens[3].token_type(), TokenType::For));
    assert!(matches!(tokens[4].token_type(), TokenType::Fun));
    assert!(matches!(tokens[5].token_type(), TokenType::If));
    assert!(matches!(tokens[6].token_type(), TokenType::Nil));
    assert!(matches!(tokens[7].token_type(), TokenType::Or));
    assert!(matches!(tokens[8].token_type(), TokenType::Print));
    assert!(matches!(tokens[9].token_type(), TokenType::Return));
    assert!(matches!(tokens[10].token_type(), TokenType::Super));
    assert!(matches!(tokens[11].token_type(), TokenType::This));
    assert!(matches!(tokens[12].token_type(), TokenType::True));
    assert!(matches!(tokens[13].token_type(), TokenType::Var));
    assert!(matches!(tokens[14].token_type(), TokenType::While));
}

#[test]
fn comment_produces_no_token() {
    let (tokens, errors) = scan("// comment\n123");
    assert_eq!(tokens.len(), 2);
    assert!(matches!(tokens[0].token_type(),
        TokenType::Number(n) if *n == NumberValue { mantissa: 123, scale: 0 }));
    assert_eq!(tokens[0].line(), 2);
    assert!(errors.is_empty());
}

#[test]
fn unterminated_string_reports_once() {
    let (tokens, errors) = scan("\"abc");
    assert_eq!(tokens.len(), 1);
    assert!(is_eof(&tokens[0]));
    assert_eq!(errors, vec![Diagnostic { line: 1, error_type: ErrorType::UnterminatedString }]);
    assert_eq!(errors[0].render(), "[line 1] Error : Unterminated String");
}

#[test]
fn lines_are_tracked() {
    let (tokens, _) = scan("a\nb\nc");
    assert_eq!(tokens.len(), 4);
    assert!(matches!(tokens[2].token_type(), TokenType::Identifier(s) if s == "c"));
    assert_eq!(tokens[0].line(), 1);
    assert_eq!(tokens[1].line(), 2);
    assert_eq!(tokens[2].line(), 3);
    assert_eq!(tokens[3].line(), 3);
}

#[test]
fn multiline_string_counts_its_lines() {
    let (tokens, _) = scan("\"a\nb\" x");
    assert_eq!(tokens.len(), 3);
    assert!(matches!(tokens[0].token_type(), TokenType::String(s) if s == "a\nb"));
    assert_eq!(tokens[0].line(), 2);
    assert_eq!(tokens[1].line(), 2);
}

#[test]
fn one_and_two_character_operators() {
    let (tokens, _) = scan("! != = == < <= > >= / *");
    assert_eq!(tokens.len(), 11);
    assert!(matches!(tokens[0].token_type(), TokenType::Bang));
    assert!(matches!(tokens[1].token_type(), TokenType::BangEqual));
    assert!(matches!(tokens[2].token_type(), TokenType::Equal));
    assert!(matches!(tokens[3].token_type(), TokenType::EqualEqual));
    assert!(matches!(tokens[4].token_type(), TokenType::Less));
    assert!(matches!(tokens[5].token_type(), TokenType::LessEqual));
    assert!(matches!(tokens[6].token_type(), TokenType::Greater));
    assert!(matches!(tokens[7].token_type(), TokenType::GreaterEqual));
    assert!(matches!(tokens[8].token_type(), TokenType::Slash));
    assert!(matches!(tokens[9].token_type(), TokenType::Star));
    assert_eq!(tokens[7].lexeme(), ">=");
    assert_eq!(tokens[6].lexeme(), ">");
}

#[test]
fn punctuation_kinds() {
    let (tokens, _) = scan("(){},.-+;");
    assert_eq!(tokens.len(), 10);
    assert!(matches!(tokens[0].token_type(), TokenType::LeftParen));
    assert!(matches!(tokens[1].token_type(), TokenType::RightParen));
    assert!(matches!(tokens[2].token_type(), TokenType::LeftBrace));
    assert!(matches!(tokens[3].token_type(), TokenType::RightBrace));
    assert!(matches!(tokens[4].token_type(), TokenType::Comma));
    assert!(matches!(tokens[5].token_type(), TokenType::Dot));
    assert!(matches!(tokens[6].token_type(), TokenType::Minus));
    assert!(matches!(tokens[7].token_type(), TokenType::Plus));
    assert!(matches!(tokens[8].token_type(), TokenType::Semicolon));
}

#[test]
fn unexpected_character_is_reported_and_skipped() {
    let (tokens, errors) = scan("a @\n# b");
    assert_eq!(tokens.len(), 3);
    assert!(matches!(tokens[1].token_type(), TokenType::Identifier(s) if s == "b"));
    assert_eq!(
        errors,
        vec![
            Diagnostic { line: 1, error_type: ErrorType::UnexpectedChar },
            Diagnostic { line: 2, error_type: ErrorType::UnexpectedChar },
        ]
    );
}

#[test]
fn non_ascii_text_is_scanned_by_character() {
    let (tokens, errors) = scan("\"héllo\" é");
    assert_eq!(tokens.len(), 2);
    assert!(matches!(tokens[0].token_type(), TokenType::String(s) if s == "héllo"));
    assert_eq!(errors.len(), 1);
}

#[test]
fn scanning_twice_adds_no_second_end_marker() {
    let mut scanner = Scanner::new("x");
    let first = scanner.scan_tokens();
    let second = scanner.scan_tokens();
    assert_eq!(first.len(), 2);
    assert_eq!(second.len(), 2);
    assert_eq!(scanner.get_tokens().len(), 2);
}

#[test]
fn contents_are_kept() {
    let scanner = Scanner::new("print 1;");
    assert_eq!(scanner.get_contents(), "print 1;");
    assert!(scanner.get_tokens().is_empty());
    assert!(scanner.get_errors().is_empty());
}

#[test]
fn lines_never_go_back() {
    let (tokens, _) = scan("a\n\"x\ny\"\nb // c\n\n(");
    let lines: Vec<usize> = tokens.iter().map(|t| t.line()).collect();
    assert_eq!(lines, vec![1, 3, 4, 6, 6]);
}

#[test]
fn lexemes_come_from_the_source() {
    let src = "var x = 12.5; // z\nprint \"s\" >= y;";
    let (tokens, _) = scan(src);
    assert_eq!(tokens.len(), 11);
    for t in &tokens[..tokens.len() - 1] {
        assert!(!t.lexeme().is_empty());
        assert!(src.contains(t.lexeme()));
    }
    assert_eq!(tokens.last().unwrap().lexeme(), "");
}

#[test]
fn end_marker_line_counts_every_newline() {
    let (tokens, _) = scan("\"a\n\nb\"\n");
    assert_eq!(tokens.last().unwrap().line(), 4);
    let (tokens, errors) = scan("\"a\nb");
    assert_eq!(tokens.len(), 1);
    assert_eq!(tokens[0].line(), 2);
    assert_eq!(errors, vec![Diagnostic { line: 2, error_type: ErrorType::UnterminatedString }]);
}
