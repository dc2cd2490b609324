//! Plain-text outline documents with checkbox todo items: the line grammar,
//! parsing and serialization, and the interactive session state machine.

pub mod text;
pub mod line;
pub mod document;
pub mod session;
pub mod config;
pub mod celebration;
