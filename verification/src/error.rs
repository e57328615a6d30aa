//! Error kinds shared by the engine's operations.

use vstd::prelude::*;

verus! {

/// Why an operation could not be carried out.
#[derive(Clone, Debug, PartialEq, Eq)]
pub enum Error {
    /// A name could not be parsed as a kernel version.
    InvalidVersion,
    /// The ESP directory structure is missing; the caller must run the
    /// initialisation flow first. Carries the missing path.
    PathNotInitialized(String),
    /// A source file that the operation needs is absent. Carries its path.
    Missing(String),
    /// Fewer bytes than the source holds reached the destination; the
    /// partial file must not be kept (typically: no space left on device).
    NoSpace,
    /// A kernel was required but none is available or installed.
    EmptySelection,
    /// A numeric selection was out of range.
    InvalidIndex,
}

impl Error {
    /// A human-readable description of the error.
    pub fn describe(&self) -> String {
        match self {
            Error::InvalidVersion => String::from_str("invalid kernel version"),
            Error::PathNotInitialized(p) => {
                let mut s = String::from_str("path not initialized, please initialize first: ");
                s.append(p.as_str());
                s
            },
            Error::Missing(p) => {
                let mut s = String::from_str("file is missing: ");
                s.append(p.as_str());
                s
            },
            Error::NoSpace => String::from_str("incomplete copy: no space left on device"),
            Error::EmptySelection => String::from_str("no kernel found"),
            Error::InvalidIndex => String::from_str("selection out of range"),
        }
    }
}

} // verus!
