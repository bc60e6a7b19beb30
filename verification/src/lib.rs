//! Front end of a small curly-braced, expression-oriented language.
//!
//! The crate has two halves. The lexer turns a source string into a sequence
//! of classified tokens that together preserve every character of the input.
//! The parser turns that token sequence into a lossless concrete syntax tree:
//! trivia (whitespace, newlines, comments) hang off the preceding significant
//! token, and missing tokens are synthesized as zero-length placeholders that
//! carry a diagnostic, so malformed programs still produce a well-formed tree.

pub mod chars;
pub mod cursor;
pub mod driver;
pub mod laws;
pub mod lexer;
pub mod nodes;
pub mod parser;
pub mod tokens;
