//! The failures a typed option lookup can surface.

use vstd::prelude::*;

verus! {

/// Why a typed lookup into an [`crate::OptionMap`] failed.
///
/// Each variant carries the key whose lookup failed, so that a caller
/// can report which option could not be resolved.
#[derive(Debug)]
pub enum Error {
    /// The key has no entry in the map.
    MissingOption(String),
    /// The bytes stored under the key are not valid UTF-8, and text was
    /// requested.
    EncodingError(String),
    /// The value is valid text but failed type-specific parsing.
    ParseError(String),
}

impl Error {
    /// The key whose lookup produced this error.
    pub open spec fn spec_key(&self) -> Seq<char> {
        match self {
            Error::MissingOption(k) => k@,
            Error::EncodingError(k) => k@,
            Error::ParseError(k) => k@,
        }
    }

    /// The key whose lookup produced this error.
    pub fn key(&self) -> (k: &String)
        ensures
            k@ == self.spec_key(),
    {
        match self {
            Error::MissingOption(k) => k,
            Error::EncodingError(k) => k,
            Error::ParseError(k) => k,
        }
    }
}

} // verus!
