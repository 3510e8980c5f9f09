//! The ways in which a run can fail.

use vstd::prelude::*;

verus! {

/// Why a timestamp, a line, a text or a whole run could not be shifted.
#[derive(Clone, Copy, Debug, PartialEq, Eq, Structural)]
pub enum SkewError {
    /// The file could not be opened or read.
    IoRead,
    /// The file could not be moved to its backup path, or the clock showed
    /// no time to name that path after.
    IoRename,
    /// The new file could not be written after the old file had been moved.
    IoWrite,
    /// A token of a timing line does not have the form `HH:MM:SS,mmm`, or
    /// denotes more milliseconds than an `i64` holds.
    MalformedTimestamp,
    /// The shift would move a timestamp before zero.
    NegativeResult,
    /// The milliseconds to shift by are not an integer that an `i64` holds.
    InvalidArgument,
}

impl SkewError {
    /// The text of the one-line message for this error.
    pub open spec fn message_spec(self) -> Seq<char> {
        match self {
            SkewError::IoRead => "cannot read the file"@,
            SkewError::IoRename => "cannot move the file to its backup path"@,
            SkewError::IoWrite => "cannot write the new file"@,
            SkewError::MalformedTimestamp => "malformed timestamp: expected HH:MM:SS,mmm"@,
            SkewError::NegativeResult => "negative result: the skew moves a timestamp before zero"@,
            SkewError::InvalidArgument => "invalid argument: the milliseconds must be an integer"@,
        }
    }

    /// A one-line description of the error, for the user.
    pub fn message(&self) -> (text: String)
        ensures
            text@ == self.message_spec(),
    {
        match self {
            SkewError::IoRead => "cannot read the file".to_string(),
            SkewError::IoRename => "cannot move the file to its backup path".to_string(),
            SkewError::IoWrite => "cannot write the new file".to_string(),
            SkewError::MalformedTimestamp => "malformed timestamp: expected HH:MM:SS,mmm".to_string(),
            SkewError::NegativeResult => "negative result: the skew moves a timestamp before zero".to_string(),
            SkewError::InvalidArgument => "invalid argument: the milliseconds must be an integer".to_string(),
        }
    }
}

/// A result that holds a string, seen as a result that holds its characters.
pub open spec fn text_of(r: Result<String, SkewError>) -> Result<Seq<char>, SkewError> {
    match r {
        Ok(s) => Ok(s@),
        Err(e) => Err(e),
    }
}

} // verus!
