//! Errors that can arise around todos that mirror a github issue.
use vstd::prelude::*;

verus! {

/// What went wrong with a github-backed todo.
#[derive(Debug, Clone, Copy, PartialEq, Eq, Structural)]
pub enum ErrorKind {
    /// Repository does not exist.
    DoesNotExist,
    /// Bad credentials.
    BadCredentials,
    /// A github issue is pinned to its list and may not be moved.
    NotAllowedToMove,
    /// Unknown error.
    UnknownError,
}

} // verus!
