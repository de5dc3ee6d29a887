use vstd::prelude::*;

verus! {

/// Why a parse attempt could not continue.
///
/// Two disjoint failure classes share this enum: lexical failures
/// (`UnterminatedQuote`, raised by the tokenizer) and grammatical failures
/// (`MissingTitle`, `MissingLabelDelta`, raised by a grammar that recognized
/// its keyword but found a malformed body).
#[derive(Clone, Copy, PartialEq, Eq, Structural, Debug)]
pub enum ParseError {
    /// A quoted span was opened but never closed before the end of the input.
    UnterminatedQuote,
    /// A note command committed to its keyword but no title token followed.
    MissingTitle,
    /// A relabel command committed to its keyword but no label delta followed.
    MissingLabelDelta,
}

/// A user-facing diagnostic: what went wrong, and the byte offset into the
/// original input at which parsing could not continue.
#[derive(Clone, Copy, PartialEq, Eq, Structural, Debug)]
pub struct Error {
    /// The failure that stopped the parse.
    pub kind: ParseError,
    /// Byte offset into the original text where the failure is anchored.
    pub offset: usize,
}

impl ParseError {
    /// The fixed diagnostic message for this failure.
    pub fn message(&self) -> (m: &'static str)
        ensures
            *self == ParseError::UnterminatedQuote ==> m@ == "unterminated quote"@,
            *self == ParseError::MissingTitle ==> m@ == "missing required summary title"@,
            *self == ParseError::MissingLabelDelta ==> m@ == "missing label delta"@,
    {
        match self {
            ParseError::UnterminatedQuote => "unterminated quote",
            ParseError::MissingTitle => "missing required summary title",
            ParseError::MissingLabelDelta => "missing label delta",
        }
    }
}

} // verus!
