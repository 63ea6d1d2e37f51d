//! What can go wrong in a command.

use vstd::prelude::*;
use vstd::string::StringExecFns;

verus! {

/// The failures of a command. Those that come from outside the library carry
/// the message of their source.
#[derive(Debug)]
pub enum Error {
    /// A file could not be opened, read or written.
    IoError(String),
    /// The bytes behind the file prefix do not hold an entry sequence.
    Serde,
    /// The file does not begin with the file prefix.
    InvalidFileError,
    /// A filter is no regular expression.
    Regex(String),
    /// A number could not be read.
    Parse(String),
    /// An argument is missing or names nothing known.
    ArgError,
}

/// The message of a failure: for those with a source, a heading and the
/// message of the source.
pub open spec fn message(error: Error) -> Seq<char> {
    match error {
        Error::IoError(detail) => "IOError: "@ + detail@,
        Error::Serde => "Serialization Error: the data is no entry sequence"@,
        Error::InvalidFileError => "not a valid file"@,
        Error::Regex(detail) => "RegEx Error: "@ + detail@,
        Error::Parse(detail) => "Parse Error: "@ + detail@,
        Error::ArgError => "argument is no UTF-8 string"@,
    }
}

impl Error {
    /// The message to show for this failure.
    pub fn to_string(&self) -> (text: String)
        ensures
            text@ == message(*self),
    {
        match self {
            Error::IoError(detail) => String::from_str("IOError: ").concat(detail.as_str()),
            Error::Serde => String::from_str("Serialization Error: the data is no entry sequence"),
            Error::InvalidFileError => String::from_str("not a valid file"),
            Error::Regex(detail) => String::from_str("RegEx Error: ").concat(detail.as_str()),
            Error::Parse(detail) => String::from_str("Parse Error: ").concat(detail.as_str()),
            Error::ArgError => String::from_str("argument is no UTF-8 string"),
        }
    }
}

} // verus!
