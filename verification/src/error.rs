//! Why a chart or a map folder is refused.

use vstd::prelude::*;

verus! {

/// Why a chart text is refused. No partial chart is ever returned.
#[derive(Debug, Clone, Copy, PartialEq, Eq, Structural)]
pub enum ParseError {
    /// A header line that starts with `#` has no `:`.
    MissingValue,
    /// A numeric field is not a number, or is too large to hold.
    BadNumber,
    /// An entry of the tempo list has no `=`, or its tempo is not positive.
    BadTempoList,
    /// The header of a difficulty section does not have six lines.
    WrongHeaderFieldCount,
    /// A key other than `#NOTES` stands inside a difficulty header.
    UnknownKeyInNotes,
    /// A row is reached for which no tempo is in force.
    NoTempo,
    /// A row holds a character other than `0`, `1`, `2`, `3` and `M`.
    UnknownRowCharacter,
    /// A note stands in a column beyond the fourth.
    LaneOutOfRange,
    /// A hold ends in a lane in which none is pending.
    HoldEndWithoutStart,
    /// A hold ends at the millisecond at which it starts.
    HoldNotAfterStart,
    /// A section, or the text, ends while a hold is pending.
    UnresolvedHold,
    /// The chart runs longer than the clock can count.
    ClockOverflow,
    /// A pre-converted chart does not begin with its header line.
    InvalidHeader,
    /// A line of a pre-converted chart does not have two fields.
    InvalidLine,
    /// The lane of a line of a pre-converted chart is not `U`, `D`, `L` or `R`.
    InvalidKey,
}

impl ParseError {
    /// The words for an error.
    pub open spec fn text(self) -> Seq<char> {
        match self {
            ParseError::MissingValue => "Header line without a value"@,
            ParseError::BadNumber => "Malformed number"@,
            ParseError::BadTempoList => "Malformed tempo list"@,
            ParseError::WrongHeaderFieldCount => "Confusing difficulty header!"@,
            ParseError::UnknownKeyInNotes => "Unknown key found in notes"@,
            ParseError::NoTempo => "No tempo is set for a row"@,
            ParseError::UnknownRowCharacter => "Unknown number"@,
            ParseError::LaneOutOfRange => "Note outside the four lanes"@,
            ParseError::HoldEndWithoutStart => "Hold ends without a start"@,
            ParseError::HoldNotAfterStart => "Hold ends where it starts"@,
            ParseError::UnresolvedHold => "Still had holds left over!"@,
            ParseError::ClockOverflow => "Chart is too long"@,
            ParseError::InvalidHeader => "Invalid file"@,
            ParseError::InvalidLine => "Invalid line"@,
            ParseError::InvalidKey => "Invalid key"@,
        }
    }

    /// Says in words what is wrong.
    pub fn message(&self) -> (words: &'static str)
        ensures
            words@ == self.text(),
    {
        match self {
            ParseError::MissingValue => "Header line without a value",
            ParseError::BadNumber => "Malformed number",
            ParseError::BadTempoList => "Malformed tempo list",
            ParseError::WrongHeaderFieldCount => "Confusing difficulty header!",
            ParseError::UnknownKeyInNotes => "Unknown key found in notes",
            ParseError::NoTempo => "No tempo is set for a row",
            ParseError::UnknownRowCharacter => "Unknown number",
            ParseError::LaneOutOfRange => "Note outside the four lanes",
            ParseError::HoldEndWithoutStart => "Hold ends without a start",
            ParseError::HoldNotAfterStart => "Hold ends where it starts",
            ParseError::UnresolvedHold => "Still had holds left over!",
            ParseError::ClockOverflow => "Chart is too long",
            ParseError::InvalidHeader => "Invalid file",
            ParseError::InvalidLine => "Invalid line",
            ParseError::InvalidKey => "Invalid key",
        }
    }
}

} // verus!
