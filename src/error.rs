//! Errors of the codecs.

use vstd::prelude::*;

verus! {

/// Why a conversion failed.
#[derive(Debug, Clone, Copy, PartialEq, Eq, Structural)]
pub enum CodecError {
    /// A character that is neither a symbol nor white space, with its
    /// position (in characters) in the input.
    InvalidSymbol { symbol: char, position: usize },
    /// The input holds no symbol at all.
    EmptyInput,
    /// The number of symbols is not a multiple of four.
    MalformedTritStream { count: usize },
    /// The decoded bytes are not valid UTF-8.
    InvalidUtf8,
    /// The text is not a decimal number.
    UnparseableNumber,
}

} // verus!
