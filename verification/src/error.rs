//! Error kinds that the operations on todos, lists and stored files report.
use vstd::prelude::*;

pub mod github_error;
pub mod storage_error;
pub mod todo_error;

verus! {

/// Result type of the whole crate.
pub type TdoResult<T> = Result<T, ErrorKind>;

/// Every error of the crate, grouped by the area it comes from.
#[derive(Debug, Clone, Copy, PartialEq, Eq, Structural)]
pub enum ErrorKind {
    /// An error within the tdo data structures occured.
    TodoError(todo_error::ErrorKind),
    /// A storage-related error occured while reading or writing a file.
    StorageError(storage_error::ErrorKind),
    /// A github-related error occured.
    GithubError(github_error::ErrorKind),
}

} // verus!
