//! dircmp: the verified core of a two-folder comparison tool.
//!
//! The library holds the logic of the comparison engine (structural diff,
//! per-status bookkeeping, content-comparison decisions), the row model and
//! navigation of the diff view, key decoding, the application state machine,
//! command-line parsing and configuration defaults.
pub mod relpath;
pub mod strings;
pub mod config;
pub mod engine;
pub mod ui;
pub mod tools;
pub mod app;
pub mod cli;
pub mod platform;
