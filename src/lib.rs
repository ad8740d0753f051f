//! A personal task manager's state layer: an ordered task store, a category
//! index derived from it, and a registry of named contexts, each of which is
//! a separately persisted task store.
//!
//! The library holds no file handles. After each change the caller writes the
//! active context's tasks to `State::task_file`; a switch of context is
//! planned by `change_context` (or `new_context`), which names the file to
//! write and the file to read, and completed by `enter_context` with what was
//! read. Tasks are ordered; a task's id is its position, so ids above a
//! removed task move down by one.

pub mod objects;
pub mod index;
pub mod errors;
pub mod registry;
pub mod state;
pub mod formatting;
pub mod settings;
pub mod program;
pub mod dates;
pub mod due;
pub mod task_text;
pub mod listing;
