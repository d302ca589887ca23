//! What a command of the command line asks of the daemon.

use crate::cli::{Command, EditCommand, FindCommand, ListCommand, ReadCommand};
use crate::commands::search::SearchOptions;
use crate::paths::{path_with_extension, with_extension};
use crate::protocol::Request;
use vstd::prelude::*;

verus! {

/// Attempts to reach a daemon that was just started.
pub const MAX_RETRIES: u32 = 3;

/// Milliseconds to wait before attempt `attempt`, counted from 0, to reach a daemon that was just
/// started; `None` where no further attempt is made.
pub fn retry_delay_ms(attempt: u32) -> (r: Option<u64>)
    ensures
        r == match attempt {
            0 => Some(100u64),
            1 => Some(200u64),
            2 => Some(500u64),
            _ => None::<u64>,
        },
        r is Some <==> attempt < MAX_RETRIES,
{
    match attempt {
        0 => Some(100),
        1 => Some(200),
        2 => Some(500),
        _ => None,
    }
}

/// A command that the daemon carries out.
pub open spec fn goes_to_daemon(c: Command) -> bool {
    !(c is Init || c is Daemon || c is Watch || c is Search || c is Server)
}

/// Whether the daemon carries a command out.
pub fn is_for_daemon(command: &Command) -> (r: bool)
    ensures
        r == goes_to_daemon(*command),
{
    match command {
        Command::Init { .. } => false,
        Command::Daemon(_) => false,
        Command::Watch { .. } => false,
        Command::Search { .. } => false,
        Command::Server(_) => false,
        _ => true,
    }
}

/// The request that asks for what a command says. The code of an edit is not part of the command;
/// it is left empty.
pub open spec fn asks_for(c: Command, r: Request) -> bool {
    match c {
        Command::Status => r == Request::Status,
        Command::Check { path, errors_only } => r == (Request::Check { path, errors_only }),
        Command::Find(FindCommand::Symbol { name, path, src_only, include_body }) => r == (Request::FindSymbol {
            name,
            path_filter: path,
            src_only,
            include_body,
        }),
        Command::Find(FindCommand::Refs { name, with_symbol }) => r == (Request::FindRefs { name, with_symbol }),
        Command::Find(FindCommand::Impl { name }) => r == (Request::FindImpl { name }),
        Command::List(ListCommand::Symbols { path, depth }) => r == (Request::ListSymbols { path, depth }),
        Command::Read(ReadCommand::File { path, from, to, max_lines }) => r == (Request::ReadFile {
            path,
            from,
            to,
            max_lines,
        }),
        Command::Read(ReadCommand::Symbol { name, signature_only, max_lines, path, has_body }) => r == (
        Request::ReadSymbol { name, signature_only, max_lines, path_filter: path, has_body }),
        Command::Edit(EditCommand::Replace { symbol }) => match r {
            Request::EditReplace { symbol: s, code } => s == symbol && code@.len() == 0,
            _ => false,
        },
        Command::Edit(EditCommand::InsertAfter { symbol }) => match r {
            Request::EditInsertAfter { symbol: s, code } => s == symbol && code@.len() == 0,
            _ => false,
        },
        Command::Edit(EditCommand::InsertBefore { symbol }) => match r {
            Request::EditInsertBefore { symbol: s, code } => s == symbol && code@.len() == 0,
            _ => false,
        },
        Command::Hover { name } => r == (Request::Hover { name }),
        Command::Format { path } => r == (Request::Format { path }),
        Command::Rename { symbol, new_name } => r == (Request::Rename { name: symbol, new_name }),
        Command::Fix { path } => r == (Request::Fix { path }),
        _ => false,
    }
}

/// Copies an optional string.
pub fn copy_option(o: &Option<String>) -> (r: Option<String>)
    ensures
        r == *o,
{
    match o {
        Some(s) => Some(s.clone()),
        None => None,
    }
}

/// Converts a command of the command line to a request to the daemon.
pub fn command_to_request(command: &Command) -> (r: Request)
    requires
        goes_to_daemon(*command),
    ensures
        asks_for(*command, r),
{
    match command {
        Command::Check { path, errors_only } => Request::Check {
            path: copy_option(path),
            errors_only: *errors_only,
        },
        Command::Find(FindCommand::Symbol { name, path, src_only, include_body }) => Request::FindSymbol {
            name: name.clone(),
            path_filter: copy_option(path),
            src_only: *src_only,
            include_body: *include_body,
        },
        Command::Find(FindCommand::Refs { name, with_symbol }) => Request::FindRefs {
            name: name.clone(),
            with_symbol: *with_symbol,
        },
        Command::Find(FindCommand::Impl { name }) => Request::FindImpl { name: name.clone() },
        Command::List(ListCommand::Symbols { path, depth }) => Request::ListSymbols {
            path: path.clone(),
            depth: *depth,
        },
        Command::Read(ReadCommand::File { path, from, to, max_lines }) => Request::ReadFile {
            path: path.clone(),
            from: *from,
            to: *to,
            max_lines: *max_lines,
        },
        Command::Read(ReadCommand::Symbol { name, signature_only, max_lines, path, has_body }) => {
            Request::ReadSymbol {
                name: name.clone(),
                signature_only: *signature_only,
                max_lines: *max_lines,
                path_filter: copy_option(path),
                has_body: *has_body,
            }
        },
        Command::Edit(EditCommand::Replace { symbol }) => Request::EditReplace {
            symbol: symbol.clone(),
            code: String::new(),
        },
        Command::Edit(EditCommand::InsertAfter { symbol }) => Request::EditInsertAfter {
            symbol: symbol.clone(),
            code: String::new(),
        },
        Command::Edit(EditCommand::InsertBefore { symbol }) => Request::EditInsertBefore {
            symbol: symbol.clone(),
            code: String::new(),
        },
        Command::Hover { name } => Request::Hover { name: name.clone() },
        Command::Format { path } => Request::Format { path: path.clone() },
        Command::Rename { symbol, new_name } => Request::Rename {
            name: symbol.clone(),
            new_name: new_name.clone(),
        },
        Command::Fix { path } => Request::Fix { path: copy_option(path) },
        _ => Request::Status,
    }
}

/// The request for an edit, with the code to put in.
pub fn edit_request(command: &EditCommand, code: String) -> (r: Request)
    ensures
        match *command {
            EditCommand::Replace { symbol } => r == (Request::EditReplace { symbol, code }),
            EditCommand::InsertAfter { symbol } => r == (Request::EditInsertAfter { symbol, code }),
            EditCommand::InsertBefore { symbol } => r == (Request::EditInsertBefore { symbol, code }),
        },
{
    match command {
        EditCommand::Replace { symbol } => Request::EditReplace { symbol: symbol.clone(), code },
        EditCommand::InsertAfter { symbol } => Request::EditInsertAfter { symbol: symbol.clone(), code },
        EditCommand::InsertBefore { symbol } => Request::EditInsertBefore { symbol: symbol.clone(), code },
    }
}

/// Greatest number of matches of a search, unless another is asked for.
pub const DEFAULT_MAX_MATCHES: usize = 200;

/// What a search command searches for; `None` for any other command.
pub fn search_options(command: &Command) -> (r: Option<SearchOptions>)
    ensures
        match *command {
            Command::Search { pattern, path, ignore_case, word, literal, context, files, lang, max } => r == Some(
                SearchOptions {
                    pattern,
                    path,
                    ignore_case,
                    word,
                    literal,
                    context,
                    files_only: files,
                    lang_filter: lang,
                    max_matches: match max {
                        Some(m) => m,
                        None => DEFAULT_MAX_MATCHES,
                    },
                },
            ),
            _ => r is None,
        },
{
    match command {
        Command::Search { pattern, path, ignore_case, word, literal, context, files, lang, max } => Some(
            SearchOptions {
                pattern: pattern.clone(),
                path: path.clone(),
                ignore_case: *ignore_case,
                word: *word,
                literal: *literal,
                context: *context,
                files_only: *files,
                lang_filter: lang.clone(),
                max_matches: match max {
                    Some(m) => *m,
                    None => DEFAULT_MAX_MATCHES,
                },
            },
        ),
        _ => None,
    }
}

/// Formats a PID file path from a socket path for display purposes.
pub fn pid_path_from_socket(socket_path: &str) -> (r: String)
    ensures
        r@ == with_extension(socket_path@, "pid"@),
{
    path_with_extension(socket_path, "pid")
}

} // verus!
