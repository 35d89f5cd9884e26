//! Lexical analysis for a small dynamically typed scripting language: source
//! text in, an ordered sequence of classified tokens out.

pub mod scanner;
pub mod tokens;

pub use scanner::{Scanner, ScannerError};
pub use tokens::{Token, TokenType};
