//! Answers as raw JSON.

use crate::json::{Json, JsonValue};
use crate::protocol::{Answer, ErrorPayload, Failure, Response};
use crate::serial::{json_text, to_json_text};
use vstd::prelude::*;

verus! {

/// A failure in JSON on one line; it has advice only where there is some.
pub open spec fn failure_text(e: Failure) -> Seq<char> {
    let base = "{\"code\":"@ + json_text(Json::Str(e.code)) + ",\"message\":"@ + json_text(Json::Str(e.message));
    match e.advice {
        Some(a) => base + ",\"advice\":"@ + json_text(Json::Str(a)) + "}"@,
        None => base + "}"@,
    }
}

/// Formats a failure in JSON on one line, its fields in the order of their declaration.
pub fn format_failure(e: &ErrorPayload) -> (r: String)
    ensures
        r@ == failure_text(e@),
{
    let mut out = "{\"code\":".to_string();
    out.append(to_json_text(&JsonValue::String(e.code.clone())).as_str());
    out.append(",\"message\":");
    out.append(to_json_text(&JsonValue::String(e.message.clone())).as_str());
    if let Some(a) = &e.advice {
        out.append(",\"advice\":");
        out.append(to_json_text(&JsonValue::String(a.clone())).as_str());
    }
    out.append("}");
    out
}

/// An answer as raw JSON: the failure, where it tells of one, or the data.
pub open spec fn shown(answer: Answer) -> Seq<char> {
    match answer.error {
        Some(e) => failure_text(e),
        None => match answer.data {
            Some(d) => json_text(d),
            None => Seq::empty(),
        },
    }
}

/// Formats a response as raw JSON for programmatic consumption.
pub fn format(response: &Response) -> (r: String)
    ensures
        r@ == shown(response@),
{
    if let Some(e) = &response.error {
        return format_failure(e);
    }
    match &response.data {
        Some(d) => to_json_text(d),
        None => String::new(),
    }
}

} // verus!
