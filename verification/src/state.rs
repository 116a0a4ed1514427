//! Errors met while reading a saved game state.

use vstd::prelude::*;

verus! {

/// Declares `std::io::Error` to Verus as an opaque type: errors are carried
/// through unchanged, and nothing is claimed of what they hold.
#[verifier::external_type_specification]
#[verifier::external_body]
pub struct ExIoError(std::io::Error);

/// Declares `std::string::FromUtf8Error` to Verus as an opaque type: errors
/// are carried through unchanged, and nothing is claimed of what they hold.
#[verifier::external_type_specification]
#[verifier::external_body]
pub struct ExFromUtf8Error(std::string::FromUtf8Error);

/// Why a saved game state could not be read.
#[derive(Debug)]
pub enum ReadingError {
    /// The file could not be read.
    Io(std::io::Error),
    /// The file is not UTF-8 text.
    Utf8(std::string::FromUtf8Error),
}

impl From<std::io::Error> for ReadingError {
    fn from(value: std::io::Error) -> (error: Self) {
        ReadingError::Io(value)
    }
}

impl vstd::std_specs::convert::FromSpecImpl<std::io::Error> for ReadingError {
    open spec fn obeys_from_spec() -> bool {
        true
    }

    open spec fn from_spec(v: std::io::Error) -> Self {
        ReadingError::Io(v)
    }
}

impl From<std::string::FromUtf8Error> for ReadingError {
    fn from(value: std::string::FromUtf8Error) -> (error: Self) {
        ReadingError::Utf8(value)
    }
}

impl vstd::std_specs::convert::FromSpecImpl<std::string::FromUtf8Error> for ReadingError {
    open spec fn obeys_from_spec() -> bool {
        true
    }

    open spec fn from_spec(v: std::string::FromUtf8Error) -> Self {
        ReadingError::Utf8(v)
    }
}

} // verus!
