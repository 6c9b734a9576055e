//! Why a hexadecimal text could not be decoded.

use vstd::prelude::*;
use vstd::string::StringExecFns;

verus! {

/// The cause carried by [`DecodeHexError::ParseInt`]: a two-character window
/// of the text that is not a base-16 number.
#[derive(Debug, Clone, Copy, PartialEq, Eq, Structural)]
pub struct InvalidDigit {
    /// Index of the first such window, counted in windows from the start of
    /// the text. The window covers the bytes `2 * window` and `2 * window + 1`.
    pub window: usize,
}

/// The ways in which decoding hexadecimal text fails.
#[derive(Debug, Clone, Copy, PartialEq, Eq, Structural)]
pub enum DecodeHexError {
    /// The text has an odd number of bytes, so it cannot be cut into
    /// two-character windows.
    OddLength,
    /// Some window holds a character outside `0-9`, `a-f`, `A-F`.
    ParseInt(InvalidDigit),
}

impl DecodeHexError {
    /// The words that describe the error.
    pub open spec fn message_text(self) -> Seq<char> {
        match self {
            DecodeHexError::OddLength => "input string has an odd number of bytes"@,
            DecodeHexError::ParseInt(_) => "invalid digit found in string"@,
        }
    }

    /// Describes the error in words, for a person to read.
    pub fn message(&self) -> (text: String)
        ensures
            text@ == self.message_text(),
    {
        match self {
            DecodeHexError::OddLength => String::from_str(
                "input string has an odd number of bytes",
            ),
            DecodeHexError::ParseInt(_) => String::from_str("invalid digit found in string"),
        }
    }
}

impl From<InvalidDigit> for DecodeHexError {
    /// Wraps the cause of a failed window into the error of the whole text.
    fn from(cause: InvalidDigit) -> (error: DecodeHexError) {
        DecodeHexError::ParseInt(cause)
    }
}

impl vstd::std_specs::convert::FromSpecImpl<InvalidDigit> for DecodeHexError {
    open spec fn obeys_from_spec() -> bool {
        true
    }

    open spec fn from_spec(cause: InvalidDigit) -> DecodeHexError {
        DecodeHexError::ParseInt(cause)
    }
}

} // verus!
