//! A scanner for a small scripting language: source text in, tokens with their lines out.
pub mod chars;
pub mod cursor;
pub mod laws;
pub mod lexer;
pub mod lexical_error;
pub mod token;

pub use chars::{is_name_continue, is_name_start, is_whitespace};
pub use cursor::{eat_while, Cursor};
pub use lexer::{tokenize, Lexer};
pub use lexical_error::ScanError;
pub use token::{uppercase_first, Spanned, Token};
