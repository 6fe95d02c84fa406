//! Core of the tdo todo-list manager: items, lists, the container that owns
//! them, and the readers for files written in older layouts.
pub mod error;
pub mod legacy;
pub mod list;
pub mod tdo;
pub mod text;
pub mod todo;
pub mod tree;
