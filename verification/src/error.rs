//! The ways in which reading a message can fail.

use vstd::prelude::*;

verus! {

/// Why a field of a message could not be read.
#[derive(Debug, Clone, Copy, PartialEq, Eq, Structural)]
pub enum MsgError {
    /// The container could not be opened, or a stream in it could not be read.
    IO,
    /// The bytes of a property are not the text they should be: invalid
    /// UTF-16 or UTF-8, or compressed rich text that does not decompress.
    Encoding,
    /// The container holds nothing at the path asked for.
    PropertyMissing,
    /// The transport headers hold no date line, or what stands on it is no
    /// RFC 2822 date.
    FormatViolation,
}

impl MsgError {
    /// A short description of the error.
    pub fn message(&self) -> (s: &'static str)
        ensures
            s@ == match *self {
                MsgError::IO => "IO error"@,
                MsgError::Encoding => "Encoding error"@,
                MsgError::PropertyMissing => "Property missing"@,
                MsgError::FormatViolation => "Format error"@,
            },
    {
        match self {
            MsgError::IO => "IO error",
            MsgError::Encoding => "Encoding error",
            MsgError::PropertyMissing => "Property missing",
            MsgError::FormatViolation => "Format error",
        }
    }
}

} // verus!
