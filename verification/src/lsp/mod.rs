//! Language servers: their messages, their symbols and their life.

pub mod client;
pub mod diagnostics;
pub mod error;
pub mod files;
pub mod install;
pub mod pool;
pub mod registry;
pub mod router;
pub mod symbols;
pub mod transport;
