//! Directory-bookmark store: the command model, the record format and the
//! engine that applies one command to a whole store.

pub mod args;
pub mod commands;
pub mod diagnostic;
pub mod dirs;
pub mod hist;
pub mod laws;
pub mod paths;
pub mod report;
pub mod text;
