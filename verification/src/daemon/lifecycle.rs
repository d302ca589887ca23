//! One daemon for each project: the file that names its process, and how long it waits.

use crate::lsp::transport::{decimal_is_read_back, parse_upto, parsed_upto};
use crate::paths::{path_with_extension, with_extension};
use crate::text::{decimal, decimal_has_no_space, decimal_of, is_space, str_trim, trim};
use vstd::prelude::*;

verus! {

/// Why the daemon cannot take the project.
#[derive(Debug, PartialEq)]
pub enum LifecycleError {
    /// Another daemon has it.
    AlreadyRunning { pid: u32 },
    /// The file that names the process cannot be written.
    Io { message: String },
}

impl LifecycleError {
    /// The text of the error.
    pub open spec fn text(self) -> Seq<char> {
        match self {
            LifecycleError::AlreadyRunning { pid } => "Daemon already running (pid "@ + decimal(pid as nat) + ")"@,
            LifecycleError::Io { message } => "IO error: "@ + message@,
        }
    }

    /// The text of the error.
    pub fn message(&self) -> (r: String)
        ensures
            r@ == self.text(),
    {
        match self {
            LifecycleError::AlreadyRunning { pid } => {
                let mut m = "Daemon already running (pid ".to_string();
                m.append(decimal_of(*pid as u64).as_str());
                m.append(")");
                m
            },
            LifecycleError::Io { message } => {
                let mut m = "IO error: ".to_string();
                m.append(message.as_str());
                m
            },
        }
    }
}

/// Path of the file that names the daemon's process.
pub fn pid_path(socket_path: &str) -> (r: String)
    ensures
        r@ == with_extension(socket_path@, "pid"@),
{
    path_with_extension(socket_path, "pid")
}

/// The process that the contents of a file name.
pub open spec fn named_pid(contents: Seq<char>) -> Option<u32> {
    match parsed_upto(trim(contents), u32::MAX as nat) {
        Some(n) => Some(n as u32),
        None => None,
    }
}

/// Reads the process that the contents of a file name.
pub fn recorded_pid(contents: &str) -> (r: Option<u32>)
    ensures
        r == named_pid(contents@),
{
    match parse_upto(str_trim(contents).as_str(), u32::MAX as u64) {
        Some(n) => Some(n as u32),
        None => None,
    }
}

/// How to take a project.
#[derive(Debug, PartialEq)]
pub struct PidStep {
    /// Whether a stale file has to be removed first.
    pub removes_stale: bool,
    /// What to write into the file.
    pub contents: String,
}

/// Decides how to take a project. `existing` is what the file holds, where there is one, and `alive`
/// tells whether the process that it names is running.
pub fn acquire_pid_file(existing: Option<&str>, alive: bool, own_pid: u32) -> (r: Result<PidStep, LifecycleError>)
    ensures
        match r {
            Ok(step) => {
                &&& step.removes_stale == existing is Some
                &&& step.contents@ == decimal(own_pid as nat)
                &&& !(existing matches Some(e) && named_pid(e@) is Some && alive)
            },
            Err(e) => {
                &&& alive
                &&& existing matches Some(c) && named_pid(c@) matches Some(pid) && e == (
                LifecycleError::AlreadyRunning { pid })
            },
        },
{
    match existing {
        Some(c) => {
            if let Some(pid) = recorded_pid(c) {
                if alive {
                    return Err(LifecycleError::AlreadyRunning { pid });
                }
            }
            Ok(PidStep { removes_stale: true, contents: decimal_of(own_pid as u64) })
        },
        None => Ok(PidStep { removes_stale: false, contents: decimal_of(own_pid as u64) }),
    }
}

/// A daemon that runs keeps the project: what it wrote names it, so no other can take it.
pub proof fn running_daemon_is_found(pid: u32)
    ensures
        named_pid(decimal(pid as nat)) == Some(pid),
{
    decimal_is_read_back(pid as nat);
    let d = decimal(pid as nat);
    decimal_has_no_space(pid as nat);
    assert(!is_space(d[0]) && !is_space(d[d.len() - 1]));
    assert(trim(d) == d);
    assert(d[0] != '+');
}

/// How long the daemon waits for a request where no other time is set: 30 minutes.
pub const DEFAULT_IDLE_TIMEOUT_SECS: u64 = 1_800;

/// The seconds that the daemon waits for a request: those that are set, where that is a number.
pub fn idle_timeout(setting: Option<&str>) -> (r: u64)
    ensures
        r == match setting {
            Some(s) => match parsed_upto(s@, u64::MAX as nat) {
                Some(n) => n as u64,
                None => DEFAULT_IDLE_TIMEOUT_SECS,
            },
            None => DEFAULT_IDLE_TIMEOUT_SECS,
        },
{
    match setting {
        Some(s) => match parse_upto(s, u64::MAX) {
            Some(n) => n,
            None => DEFAULT_IDLE_TIMEOUT_SECS,
        },
        None => DEFAULT_IDLE_TIMEOUT_SECS,
    }
}

/// Whether the daemon has waited for a request as long as it is to.
pub fn is_idle_over(elapsed_secs: u64, timeout_secs: u64) -> (r: bool)
    ensures
        r == (elapsed_secs >= timeout_secs),
{
    elapsed_secs >= timeout_secs
}

} // verus!
