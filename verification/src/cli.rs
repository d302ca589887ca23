//! The command line: what can be asked for.

use vstd::prelude::*;

verus! {

/// A parsed command line.
#[derive(Debug)]
pub struct Cli {
    pub command: Command,
    /// Output format.
    pub format: OutputFormat,
    /// Enable verbose logging.
    pub verbose: bool,
}

/// How results are shown.
#[derive(Debug, Clone, Copy, PartialEq, Eq, Structural)]
pub enum OutputFormat {
    Compact,
    Json,
    Human,
}

/// A command.
#[derive(Debug)]
#[allow(inconsistent_fields)]
pub enum Command {
    /// Generate a config from auto-detected workspaces.
    Init { force: bool, dry_run: bool },
    /// Show daemon health, language server state, cache stats.
    Status,
    /// Show diagnostics.
    Check { path: Option<String>, errors_only: bool },
    /// Find symbols and references.
    Find(FindCommand),
    /// List symbols or other resources.
    List(ListCommand),
    /// Read files or symbol bodies.
    Read(ReadCommand),
    /// Semantic code editing via standard input.
    Edit(EditCommand),
    /// Manage the background daemon.
    Daemon(DaemonCommand),
    /// Show type info and documentation for a symbol.
    Hover { name: String },
    /// Format a file.
    Format { path: String },
    /// Rename a symbol across all files.
    Rename { symbol: String, new_name: String },
    /// Apply quick fixes for current diagnostics.
    Fix { path: Option<String> },
    /// Poll for diagnostics and print timestamped results.
    Watch { path: Option<String>, interval: u64 },
    /// Manage language server installations.
    Server(ServerCommand),
    /// Search for a pattern in project files.
    Search {
        pattern: String,
        path: Option<String>,
        ignore_case: bool,
        word: bool,
        literal: bool,
        context: u32,
        files: bool,
        lang: Option<String>,
        max: Option<usize>,
    },
}

/// What to find.
#[derive(Debug)]
pub enum FindCommand {
    /// Locate a symbol's definition.
    Symbol { name: String, path: Option<String>, src_only: bool, include_body: bool },
    /// Find all references to a symbol.
    Refs { name: String, with_symbol: bool },
    /// Navigate from an interface method to concrete implementations.
    Impl { name: String },
}

/// What to list.
#[derive(Debug)]
pub enum ListCommand {
    /// Semantic outline of a file.
    Symbols { path: String, depth: u8 },
}

/// What to read.
#[derive(Debug)]
#[allow(inconsistent_fields)]
pub enum ReadCommand {
    /// Read file contents with line numbers.
    File { path: String, from: Option<u32>, to: Option<u32>, max_lines: Option<u32> },
    /// Extract a symbol's code.
    Symbol {
        name: String,
        signature_only: bool,
        max_lines: Option<u32>,
        path: Option<String>,
        has_body: bool,
    },
}

/// What to edit.
#[derive(Debug)]
pub enum EditCommand {
    /// Replace a symbol's body.
    Replace { symbol: String },
    /// Insert code after a symbol.
    InsertAfter { symbol: String },
    /// Insert code before a symbol.
    InsertBefore { symbol: String },
}

/// What to do with language servers.
#[derive(Debug)]
#[allow(inconsistent_fields)]
pub enum ServerCommand {
    /// List all supported servers and their install status.
    List,
    /// Install a server.
    Install { lang: Option<String>, reinstall: bool },
    /// Remove all managed servers.
    Clean,
    /// Show running server status from the daemon.
    Status,
    /// Restart a server in the running daemon.
    Restart { lang: String },
}

/// What to do with the daemon.
#[derive(Debug)]
pub enum DaemonCommand {
    /// Start the daemon in the foreground.
    Start,
    /// Stop the running daemon.
    Stop,
    /// Show daemon status.
    Status,
}

} // verus!
