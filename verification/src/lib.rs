//! Code intelligence over language servers: the logic behind the `krait` command line.
//!
//! Everything here computes on plain values. Talking to language servers, the disk, the index
//! database and the terminal is left to the program around this library.

pub mod cli;
pub mod client;
pub mod commands;
pub mod config;
pub mod daemon;
pub mod detect;
pub mod index;
pub mod json;
pub mod lang;
pub mod lsp;
pub mod output;
pub mod paths;
pub mod protocol;
pub mod report;
pub mod serial;
pub mod sorting;
pub mod text;
