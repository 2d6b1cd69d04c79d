//! The adapter that speaks for a model server.

pub mod chat;
pub mod stream;
