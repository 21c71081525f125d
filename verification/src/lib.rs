//! Incremental tailing of a growing text file.
//!
//! The library tracks a byte position inside a file, computes which bytes are
//! newly available, decodes them, and splits them into batches of segments on
//! a configurable separator. A small state machine describes how a background
//! task reacts to filesystem events and to a shutdown request; the actual
//! file handles, watcher registration and task live outside the library and
//! feed it plain values.

pub mod error;
pub mod reader;
pub mod stream;
pub mod watcher;
