use lox_lexer::error::{error, format_report, parser_error, ErrorType};
use lox_lexer::token::{render_number, NumberValue, Token, TokenType};

#[test]
fn token_rendering() {
    let t = Token::new(TokenType::String(String::from("hi")), String::from("\"hi\""), 4);
    assert_eq!(t.to_string(), "String(\"hi\") \"hi\" hi");
    assert_eq!(t.line(), 4);
    let t = Token::new(TokenType::String(String::from("hi")), String::new(), 1);
    assert_eq!(t.to_string(), "String(\"hi\")  hi");
    let t = Token::new(TokenType::String(String::from("a\"b\\c\n")), String::new(), 1);
    assert_eq!(t.to_string(), "String(\"a\\\"b\\\\c\\n\")  a\"b\\c\n");
    let t = Token::new(TokenType::Identifier(String::from("foo")), String::from("foo"), 1);
    assert_eq!(t.to_string(), "Identifier(\"foo\") foo ");
    let t = Token::new(TokenType::EOF, String::new(), 9);
    assert_eq!(t.to_string(), "EOF  ");
    let t = Token::new(TokenType::LeftParen, String::from("("), 1);
    assert_eq!(t.to_string(), "LeftParen ( ");
    let t = Token::new(TokenType::Number(NumberValue { mantissa: 123, scale: 0 }), String::from("123"), 2);
    assert_eq!(t.to_string(), "Number(123) 123 123");
    let t = Token::new(TokenType::Number(NumberValue { mantissa: 125, scale: 1 }), String::from("12.5"), 1);
    assert_eq!(t.to_string(), "Number(12.5) 12.5 12.5");
}

#[test]
fn token_rendering_with_given_quoting() {
    let t = Token::new(TokenType::String(String::from("hi")), String::from("\"hi\""), 1);
    assert_eq!(t.render_with("<q>"), "String(<q>) \"hi\" hi");
    let t = Token::new(TokenType::Identifier(String::from("x")), String::from("x"), 1);
    assert_eq!(t.render_with("'x'"), "Identifier('x') x ");
    let t = Token::new(TokenType::Star, String::from("*"), 1);
    assert_eq!(t.render_with("ignored"), "Star * ");
}

#[test]
fn number_rendering() {
    assert_eq!(render_number(NumberValue { mantissa: 0, scale: 0 }), "0");
    assert_eq!(render_number(NumberValue { mantissa: 125, scale: 1 }), "12.5");
    assert_eq!(render_number(NumberValue { mantissa: 5, scale: 2 }), "0.05");
    assert_eq!(render_number(NumberValue { mantissa: 100, scale: 2 }), "1.00");
    assert_eq!(render_number(NumberValue { mantissa: u64::MAX, scale: 0 }), "18446744073709551615");
}

#[test]
fn diagnostic_lines() {
    assert_eq!(parser_error(3, ErrorType::UnterminatedString), "[line 3] Error : Unterminated String");
    assert_eq!(parser_error(1, ErrorType::UnexpectedChar), "[line 1] Error : Unexpected Character");
    assert_eq!(parser_error(10, ErrorType::UnexpectedEndOfFile), "[line 10] Error : Unexpected End Of File");
    assert_eq!(parser_error(2, ErrorType::NumberTooLarge), "[line 2] Error : Number Too Large");
    assert_eq!(error(7, "boom"), "[line 7] Error : boom");
    assert_eq!(format_report(12, "at end", "x"), "[line 12] Error at end: x");
}
