//! A small TODO list: a store of named tasks, each with an open/done flag,
//! the commands that act on it, and its persisted JSON document.

pub mod command;
pub mod document;
pub mod entries;
pub mod laws;
pub mod store;

pub use command::{parse_command, Command, CommandError, Outcome};
pub use document::PersistError;
pub use store::TodoList;
