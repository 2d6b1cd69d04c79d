//! The adapter that speaks for the `agy` command line.

pub mod adapter;
pub mod batch;
pub mod narration;
pub mod prompt;
pub mod protobuf;
pub mod sessions;
pub mod streaming;
