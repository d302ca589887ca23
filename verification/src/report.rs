//! What the command line tells its user besides the answers.

use crate::config::{shown_path, workspace_name};
use crate::detect::language::Language;
use crate::text::{char_count, decimal, decimal_of, str_trim, trim};
use vstd::prelude::*;

verus! {

/// A number with at least two digits.
pub open spec fn two_digits(n: nat) -> Seq<char> {
    if n < 10 {
        "0"@ + decimal(n)
    } else {
        decimal(n)
    }
}

fn make_two_digits(n: u64) -> (r: String)
    ensures
        r@ == two_digits(n as nat),
{
    if n < 10 {
        let mut s = "0".to_string();
        s.append(decimal_of(n).as_str());
        s
    } else {
        decimal_of(n)
    }
}

/// The time of day at a Unix time, as hours, minutes and seconds of UTC.
pub fn utc_time_str(secs: u64) -> (r: String)
    ensures
        r@ == two_digits(((secs % 86400) / 3600) as nat) + ":"@ + two_digits(((secs % 3600) / 60) as nat) + ":"@
            + two_digits((secs % 60) as nat),
{
    let mut out = make_two_digits((secs % 86400) / 3600);
    out.append(":");
    out.append(make_two_digits((secs % 3600) / 60).as_str());
    out.append(":");
    out.append(make_two_digits(secs % 60).as_str());
    out
}

/// The line that tells of a workspace that was found.
pub fn workspace_line(lang: Language, root: &str, project_root: &str) -> (r: String)
    ensures
        r@ == "  "@ + lang.label() + "  "@ + shown_path(root@, project_root@),
{
    let mut out = "  ".to_string();
    out.append(lang.name());
    out.append("  ");
    out.append(workspace_name(root, project_root).as_str());
    out
}

/// The line that a watch prints for an answer at a time of day.
pub fn watch_line(time: &str, formatted: &str) -> (r: String)
    ensures
        r@ == "["@ + time@ + "] "@ + if formatted@.len() == 0 {
            "No diagnostics"@
        } else {
            trim(formatted@)
        },
{
    let mut out = "[".to_string();
    out.append(time);
    out.append("] ");
    if char_count(formatted) == 0 {
        out.append("No diagnostics");
    } else {
        out.append(str_trim(formatted).as_str());
    }
    out
}

/// What is said where an edit is given no code.
pub open spec fn no_input() -> Seq<char> {
    "No input. Pipe code into this command:\n  echo 'fn new_body() {}' | krait edit replace <symbol>"@
}

/// Checks that the code for an edit is not blank.
pub fn check_edit_input(code: &str) -> (r: Result<(), String>)
    ensures
        match r {
            Ok(_) => trim(code@).len() > 0,
            Err(m) => trim(code@).len() == 0 && m@ == no_input(),
        },
{
    if char_count(str_trim(code).as_str()) == 0 {
        return Err(
            "No input. Pipe code into this command:\n  echo 'fn new_body() {}' | krait edit replace <symbol>".to_string(),
        );
    }
    Ok(())
}

} // verus!
