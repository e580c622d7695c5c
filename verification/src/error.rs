//! The ways in which subtitle text can be malformed.

use vstd::prelude::*;

verus! {

/// Why a piece of subtitle text was rejected.
#[derive(Debug, Clone, Copy, PartialEq, Eq, Structural)]
pub enum ParseError {
    /// A timestamp is not of the form `HH:MM:SS,mmm`.
    InvalidTimeString,
    /// A line of two timestamps is not of the form `<time> --> <time>`.
    InvalidTimeLine,
    /// The line that opens a block is not a non-negative integer.
    InvalidIndex,
    /// The line source failed to read a line.
    InvalidContent,
}

impl ParseError {
    /// The short message that goes with each kind of error.
    pub open spec fn description_text(self) -> Seq<char> {
        match self {
            ParseError::InvalidIndex => "Invalid index"@,
            ParseError::InvalidTimeString => "Invalid time"@,
            ParseError::InvalidContent => "Invalid content"@,
            ParseError::InvalidTimeLine => "Invalid time line"@,
        }
    }

    /// A short message for a diagnostic.
    pub fn description(&self) -> (r: &'static str)
        ensures
            r@ == self.description_text(),
    {
        match *self {
            ParseError::InvalidIndex => "Invalid index",
            ParseError::InvalidTimeString => "Invalid time",
            ParseError::InvalidContent => "Invalid content",
            ParseError::InvalidTimeLine => "Invalid time line",
        }
    }

    /// The message of this error as an owned text.
    pub fn to_string(&self) -> (r: String)
        ensures
            r@ == self.description_text(),
    {
        self.description().to_owned()
    }
}

} // verus!
