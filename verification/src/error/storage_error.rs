//! Errors that may occur while reading or writing a stored container.
use vstd::prelude::*;

verus! {

/// What went wrong with a stored file.
#[derive(Debug, Clone, Copy, PartialEq, Eq, Structural)]
pub enum ErrorKind {
    /// The accessed file is corrupted, most likely because it was edited by hand.
    FileCorrupted,
    /// The data could not be written to the file.
    SaveFailure,
    /// The requested file could not be found.
    FileNotFound,
    /// The conversion of an older format failed.
    UnableToConvert,
}

} // verus!
