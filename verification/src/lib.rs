//! An interactive command-shell engine: a registry of named commands with a
//! dispatcher, a bounded replayable history of executed statements, a
//! detector that tells a finished statement from one that continues on the
//! next physical line, and a keyword highlighter for the line being edited.
//!
//! The surrounding program (line editing, the backing engine process, HTTP
//! transport and table rendering) talks to this crate through plain values.

pub mod text;
pub mod complete;
pub mod history;
pub mod tokens;
pub mod shell;
pub mod highlight;
pub mod conf;
pub mod printer;
pub mod progress;
