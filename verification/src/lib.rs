//! A small task tracker: tasks with an open/complete state and a free-text
//! description, serialized one per line to a backing store.
//!
//! The `text` module gives the whitespace-splitting model that the codec is
//! specified against; `task` holds the record type and its line codec;
//! `store` holds the ordered task list with its load/save codec; `command`
//! maps an argument list to the action it requests.

pub mod command;
pub mod store;
pub mod task;
pub mod text;
