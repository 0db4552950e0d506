//! The ways in which parsing a size can fail.

use vstd::prelude::*;

verus! {

/// Why a string is not a byte size.
#[derive(Debug, Clone, Copy, PartialEq, Eq, Structural)]
pub enum Error {
    /// The string is empty.
    Empty,
    /// The number in front of the unit is malformed.
    Invalid,
    /// The unit suffix is not one that the table knows.
    Unit,
}

/// The message that describes an error.
pub open spec fn error_message(e: Error) -> Seq<char> {
    match e {
        Error::Empty => "cannot parse bytesize from empty string"@,
        Error::Invalid => "invalid number found in string"@,
        Error::Unit => "cannot recognize byte unit in string"@,
    }
}

impl Error {
    /// A sentence that describes the error.
    pub fn message(&self) -> (r: &'static str)
        ensures
            r@ == error_message(*self),
    {
        match self {
            Error::Empty => "cannot parse bytesize from empty string",
            Error::Invalid => "invalid number found in string",
            Error::Unit => "cannot recognize byte unit in string",
        }
    }
}

} // verus!
