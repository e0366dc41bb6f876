use vstd::prelude::*;

verus! {

/// The ways in which reading or writing a board can fail.
#[derive(Debug, Clone, Copy, PartialEq, Eq, Structural)]
pub enum GolError {
    /// The data does not start with the header of a board file.
    InvalidFormat,
    /// The byte store could not deliver (or take) the requested bytes.
    IoFailure,
    /// The requested coordinate lies outside the board.
    OutOfRange,
    /// The storage holds no valid cell at the requested position.
    CorruptData,
}

/// The text that describes an error.
pub open spec fn error_text(error: GolError) -> Seq<char> {
    match error {
        GolError::InvalidFormat => "File isn't a Game of Life file"@,
        GolError::IoFailure => "Failed to read file contents"@,
        GolError::OutOfRange => "Cell was not in range"@,
        GolError::CorruptData => "Cell shouldn't be empty"@,
    }
}

impl GolError {
    /// The text that describes the error.
    pub fn message(&self) -> (text: &'static str)
        ensures
            text@ == error_text(*self),
    {
        match self {
            GolError::InvalidFormat => "File isn't a Game of Life file",
            GolError::IoFailure => "Failed to read file contents",
            GolError::OutOfRange => "Cell was not in range",
            GolError::CorruptData => "Cell shouldn't be empty",
        }
    }
}

} // verus!
