//! What goes wrong with a language server.

use crate::detect::language::Language;
use crate::text::{decimal, push_decimal};
use vstd::prelude::*;

verus! {

/// Errors specific to language server operations.
#[derive(Debug)]
pub enum LspError {
    /// The server binary was not found.
    ServerNotFound { language: Language, advice: String },
    /// The initialize handshake failed.
    InitializeFailed { message: String },
    /// An operation timed out after so many seconds.
    Timeout { operation: String, seconds: u64 },
    /// The server process crashed.
    ServerCrashed { exit_code: Option<i32> },
}

/// A whole number of seconds, to one decimal.
pub open spec fn seconds_text(seconds: u64) -> Seq<char> {
    if seconds == 0 {
        "0.0ns"@
    } else {
        decimal(seconds as nat) + ".0s"@
    }
}

/// A number in decimal, with a minus sign where it is negative.
pub open spec fn signed_decimal(n: int) -> Seq<char> {
    if n < 0 {
        "-"@ + decimal((-n) as nat)
    } else {
        decimal(n as nat)
    }
}

impl LspError {
    /// What the error says.
    pub open spec fn text(self) -> Seq<char> {
        match self {
            LspError::ServerNotFound { language, advice } => "LSP server for "@ + language.label() + " not found. "@
                + advice@,
            LspError::InitializeFailed { message } => "LSP initialize failed: "@ + message@,
            LspError::Timeout { operation, seconds } => "LSP "@ + operation@ + " timed out after "@ + seconds_text(
                seconds,
            ),
            LspError::ServerCrashed { exit_code } => match exit_code {
                Some(code) => "LSP server crashed with exit code "@ + signed_decimal(code as int),
                None => "LSP server crashed (no exit code)"@,
            },
        }
    }

    /// Says what is wrong.
    pub fn message(&self) -> (r: String)
        ensures
            r@ == self.text(),
    {
        match self {
            LspError::ServerNotFound { language, advice } => {
                let mut m = "LSP server for ".to_string();
                m.append(language.name());
                m.append(" not found. ");
                m.append(advice.as_str());
                m
            },
            LspError::InitializeFailed { message } => {
                let mut m = "LSP initialize failed: ".to_string();
                m.append(message.as_str());
                m
            },
            LspError::Timeout { operation, seconds } => {
                let mut m = "LSP ".to_string();
                m.append(operation.as_str());
                m.append(" timed out after ");
                if *seconds == 0 {
                    m.append("0.0ns");
                } else {
                    push_decimal(&mut m, *seconds);
                    m.append(".0s");
                }
                assert(m@ =~= self.text());
                m
            },
            LspError::ServerCrashed { exit_code } => match exit_code {
                Some(code) => {
                    let mut m = "LSP server crashed with exit code ".to_string();
                    if *code < 0 {
                        m.append("-");
                        push_decimal(&mut m, (-(*code as i64)) as u64);
                    } else {
                        push_decimal(&mut m, *code as u64);
                    }
                    assert(m@ =~= self.text());
                    m
                },
                None => "LSP server crashed (no exit code)".to_string(),
            },
        }
    }
}

} // verus!
