//! A small task-list library: an in-memory repository of named tasks with
//! priority and creation-time metadata, and a JSON-backed persistence format.
//!
//! The repository owns an ordered sequence of tasks and offers add, lookup,
//! edit and remove by name, plus whole-collection save and load through a
//! textual JSON encoding. File and console I/O live outside the library: the
//! caller supplies file-system facts (whether a path exists, a file's
//! contents) and performs the actual reads and writes.

pub mod task;
pub mod text;
pub mod codec;
pub mod repo;
