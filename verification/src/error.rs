//! The failures of the scanner and the lexer.

use vstd::prelude::*;

verus! {

/// Why a scanner or lexer operation produced nothing.
#[derive(Debug, Clone, Copy, PartialEq, Eq, Structural)]
pub enum Error {
    /// More characters were asked for than the text still holds.
    OutOfRange,
    /// The character `chr`, at offset `pos`, begins no token.
    InvalidCharacter { chr: char, pos: usize },
}

} // verus!
