//! Errors that can arise when working with todo lists.
use vstd::prelude::*;

verus! {

/// What went wrong inside the todo data structures.
#[derive(Debug, Clone, Copy, PartialEq, Eq, Structural)]
pub enum ErrorKind {
    /// The requested item is not in the list.
    NotInList,
    /// The requested todo list does not exist.
    NoSuchList,
    /// The default list is tried to be removed.
    CanNotRemoveDefault,
    /// A list with the same name already exists.
    NameAlreadyExists,
    /// A todo with the same ID already exists.
    IDAlreadyExists,
}

} // verus!
