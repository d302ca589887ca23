//! Showing answers.

use crate::cli::OutputFormat;
use crate::protocol::{Answer, Response};
use vstd::prelude::*;

pub mod compact;
pub mod human;
pub mod json;
pub mod search;

verus! {

/// An answer in the selected format.
pub open spec fn shown(answer: Answer, format: OutputFormat) -> Seq<char> {
    match format {
        OutputFormat::Compact => compact::shown(answer),
        OutputFormat::Json => json::shown(answer),
        OutputFormat::Human => human::shown(answer),
    }
}

/// Formats a response according to the selected output format.
pub fn format_response(response: &Response, format: OutputFormat) -> (r: String)
    ensures
        r@ == shown(response@, format),
{
    match format {
        OutputFormat::Compact => compact::format(response),
        OutputFormat::Json => json::format(response),
        OutputFormat::Human => human::format(response),
    }
}

} // verus!
