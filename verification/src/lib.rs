//! A small command-line task tracker: an ordered list of text tasks with a
//! completion flag, persisted in full to a single JSON file on every change.
//!
//! The library holds everything that can be stated and proved: the task model,
//! the JSON serializer and parser for the stored list (with a proved
//! round-trip), the decimal parsing and rendering used by the `done` command
//! and the listing, and the command handlers themselves. File and console I/O
//! live in the surrounding binary.

pub mod chars;
pub mod codec;
pub mod commands;
pub mod numbers;
pub mod store;
pub mod task;
