//! Failure kinds reported by the signature and scan operations.

use vstd::prelude::*;

verus! {

/// Why the match engine rejected a signature text.
#[derive(Clone, Copy, Debug, PartialEq, Eq, Structural)]
pub enum ParseError {
    /// More tokens than the engine can hold.
    TooLong,
    /// A token that is neither a wildcard nor two hexadecimal digits.
    InvalidHex,
    /// No literal byte to anchor the search on.
    NoAnchorByte,
    /// Any rejection the engine may add later.
    Other,
}

impl ParseError {
    /// The text shown to a user for this rejection.
    pub open spec fn message_text(self) -> Seq<char> {
        match self {
            ParseError::TooLong => "pattern too long"@,
            ParseError::InvalidHex => "invalid hex number"@,
            ParseError::NoAnchorByte => "missing non-wildcard byte"@,
            ParseError::Other => "unknown error"@,
        }
    }

    pub fn message(&self) -> (text: &'static str)
        ensures
            text@ == self.message_text(),
    {
        match self {
            ParseError::TooLong => "pattern too long",
            ParseError::InvalidHex => "invalid hex number",
            ParseError::NoAnchorByte => "missing non-wildcard byte",
            ParseError::Other => "unknown error",
        }
    }
}

/// Every way an operation of this library can end without a result.
///
/// None of them is fatal: the operation reports the kind and leaves its state as documented.
#[derive(Clone, Copy, Debug, PartialEq, Eq, Structural)]
pub enum PatternError {
    /// The image source returned fewer bytes than were asked for.
    ReadError,
    /// The disassembler knows no architecture, function or instruction length at an address.
    NoDisassemblyContext,
    /// The signature text is malformed.
    ParseError(ParseError),
    /// The signature occurs more than once, so no prefix of it can be unique.
    AmbiguousSignature,
    /// The scan reached the end of the image.
    NotFound,
    /// A scan was resumed for a binary that has none in progress.
    MissingSession,
}

} // verus!
