use vstd::prelude::*;

verus! {

/// Why scanning stopped. Each error carries the line it refers to.
#[derive(Clone, Copy, PartialEq, Eq, Debug, Structural)]
pub enum ScanError {
    /// A character that no token can begin with.
    UnexpectedChar { ch: char, line: usize },
    /// A fraction point with no digit after it.
    ExpectedDigitAfterDot { line: usize },
    /// A string literal with no closing quote before the end of its line or of the input.
    UnterminatedString { line: usize },
}

} // verus!
