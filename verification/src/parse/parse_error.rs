//! Why a line could not be read.

use vstd::prelude::*;

verus! {

/// Why a line, or one entry of it, could not be read. None of these stops a
/// batch: the line simply adds no record.
#[derive(Clone, Copy, Debug, PartialEq, Eq, Structural)]
pub enum ParseError {
    /// An entry that should be an integer is none.
    IntParseError,
    /// An entry that should be a decimal number is none.
    FloatParseError,
    /// An entry that should be a date or a time of day is none.
    DateTimeParseError,
    /// The line ends before all expected entries were seen.
    InsufficientData,
    /// An entry that should be empty is not.
    InvalidDelimeter,
    /// The line is well formed but its values mark it as holding no data.
    InvalidData,
    /// A version marker is present but cannot be read.
    ImproperFormat,
    /// The line has no version marker.
    NoVersion,
}

impl ParseError {
    /// The text shown for the error.
    pub open spec fn message_spec(&self) -> Seq<char> {
        match self {
            ParseError::IntParseError => "Coult not parse int."@,
            ParseError::FloatParseError => "Could not parse float"@,
            ParseError::DateTimeParseError => "Could not parse date/time"@,
            ParseError::InsufficientData => "Insufficient data, expected more entries"@,
            ParseError::InvalidDelimeter => "Invalid delimeter, expected empty entry"@,
            ParseError::InvalidData => "Line contained invalid data"@,
            ParseError::ImproperFormat => "Could not parse data out of improperly formatted entry"@,
            ParseError::NoVersion => "Version string not found"@,
        }
    }

    /// The text shown for the error.
    pub fn message(&self) -> (text: &'static str)
        ensures
            text@ == self.message_spec(),
    {
        match self {
            ParseError::IntParseError => "Coult not parse int.",
            ParseError::FloatParseError => "Could not parse float",
            ParseError::DateTimeParseError => "Could not parse date/time",
            ParseError::InsufficientData => "Insufficient data, expected more entries",
            ParseError::InvalidDelimeter => "Invalid delimeter, expected empty entry",
            ParseError::InvalidData => "Line contained invalid data",
            ParseError::ImproperFormat => "Could not parse data out of improperly formatted entry",
            ParseError::NoVersion => "Version string not found",
        }
    }
}

} // verus!
