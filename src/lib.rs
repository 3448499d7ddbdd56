//! A lexical scanner for a small scripting language: turns source text into
//! an ordered sequence of typed tokens, tracking line numbers and collecting
//! diagnostics for malformed lexemes without stopping.
//!
//! `grammar` states what a scan produces as a mathematical model; `scanner`
//! is the executable engine, proved to produce exactly that; `laws` proves
//! properties of every scan from the model.

pub mod error;
pub mod grammar;
pub mod laws;
pub mod scanner;
pub mod text;
pub mod token;
