//! Lexical errors and the text of the diagnostics reported for them.

use crate::text::{decimal_chars, decimal_digits, string_of_range};
use vstd::prelude::*;

verus! {

broadcast use vstd::string::group_string_axioms;

/// The kinds of lexical error. None of them stops a scan.
#[derive(Debug, Clone, Copy, PartialEq, Eq, Structural)]
pub enum ErrorType {
    /// A `"` was opened and never closed before the end of the input.
    UnterminatedString,
    /// The input ended where more was expected.
    UnexpectedEndOfFile,
    /// A character that starts no lexeme.
    UnexpectedChar,
    /// A numeric literal whose digits do not fit in 64 bits.
    NumberTooLarge,
}

/// The fixed message of each error kind.
pub open spec fn error_message(e: ErrorType) -> Seq<char> {
    match e {
        ErrorType::UnterminatedString => "Unterminated String"@,
        ErrorType::UnexpectedEndOfFile => "Unexpected End Of File"@,
        ErrorType::UnexpectedChar => "Unexpected Character"@,
        ErrorType::NumberTooLarge => "Number Too Large"@,
    }
}

impl ErrorType {
    /// The fixed message of this error kind.
    pub fn message(&self) -> (r: &'static str)
        ensures
            r@ == error_message(*self),
    {
        match self {
            ErrorType::UnterminatedString => "Unterminated String",
            ErrorType::UnexpectedEndOfFile => "Unexpected End Of File",
            ErrorType::UnexpectedChar => "Unexpected Character",
            ErrorType::NumberTooLarge => "Number Too Large",
        }
    }
}

/// One lexical error and the line on which it was found.
#[derive(Debug, Clone, Copy, PartialEq, Eq, Structural)]
pub struct Diagnostic {
    pub line: usize,
    pub error_type: ErrorType,
}

/// The text of a diagnostic line: `[line <N>] Error <where>: <message>`.
pub open spec fn report_text(line: nat, error_where: Seq<char>, message: Seq<char>) -> Seq<char> {
    "[line "@ + decimal_digits(line) + "] Error "@ + error_where + ": "@ + message
}

/// Formats one diagnostic line: `[line <N>] Error <where>: <message>`.
pub fn format_report(line: usize, error_where: &str, message: &str) -> (r: String)
    ensures
        r@ == report_text(line as nat, error_where@, message@),
{
    let digits = decimal_chars(line as u64);
    let n = string_of_range(&digits, 0, digits.len());
    let mut r = String::from_str("[line ");
    r.append(n.as_str());
    r.append("] Error ");
    r.append(error_where);
    r.append(": ");
    r.append(message);
    proof {
        assert(digits@.subrange(0, digits@.len() as int) =~= digits@);
        assert(r@ =~= report_text(line as nat, error_where@, message@));
    }
    r
}

/// The diagnostic line for an error kind found on `line`.
pub fn parser_error(line: usize, error_type: ErrorType) -> (r: String)
    ensures
        r@ == report_text(line as nat, Seq::empty(), error_message(error_type)),
{
    error(line, error_type.message())
}

/// The diagnostic line for a free-form message about `line`.
pub fn error(line: usize, message: &str) -> (r: String)
    ensures
        r@ == report_text(line as nat, Seq::empty(), message@),
{
    let r = format_report(line, "", message);
    proof {
        reveal_strlit("");
    }
    r
}

impl Diagnostic {
    /// The diagnostic line for this error.
    pub fn render(&self) -> (r: String)
        ensures
            r@ == report_text(self.line as nat, Seq::empty(), error_message(self.error_type)),
    {
        parser_error(self.line, self.error_type)
    }
}

} // verus!
