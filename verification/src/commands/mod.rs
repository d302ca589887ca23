//! The commands: what each computes from what it was given and what the language server said.

use vstd::prelude::*;

pub mod check;
pub mod edit;
pub mod find;
pub mod fix;
pub mod format;
pub mod hover;
pub mod list;
pub mod read;
pub mod rename;
pub mod search;
pub mod server;
pub mod workspace_edit;

verus! {

/// Number of lines that a read returns where the caller sets no limit.
pub const DEFAULT_MAX_LINES: u32 = 200;

} // verus!
