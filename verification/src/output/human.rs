//! Answers for people at a terminal.

use crate::json::{jsons, Json, JsonValue};
use crate::serial::{pretty_text, to_pretty_text};
use crate::protocol::{Answer, Failure, Response};
use crate::text::{decimal, join, join_strings, push_decimal, views};
use vstd::prelude::*;

verus! {

/// A failure for people.
pub open spec fn failure_text(e: Failure) -> Seq<char> {
    let base = "Error: "@ + e.message + "\nCode:  "@ + e.code;
    match e.advice {
        Some(a) => base + "\n\nAdvice: "@ + a,
        None => base,
    }
}

/// A duration in words.
pub open spec fn duration_words(secs: u64) -> Seq<char> {
    if secs < 60 {
        decimal(secs as nat) + " seconds"@
    } else if secs < 3600 {
        let m = secs as nat / 60;
        if m == 1 {
            "1 minute"@
        } else {
            decimal(m) + " minutes"@
        }
    } else {
        let h = secs as nat / 3600;
        let m = secs as nat % 3600 / 60;
        let hours = if h == 1 {
            "1 hour"@
        } else {
            decimal(h) + " hours"@
        };
        if m == 0 {
            hours
        } else {
            hours + " "@ + decimal(m) + " minutes"@
        }
    }
}

/// Formats a duration in words.
pub fn format_duration_human(secs: u64) -> (r: String)
    ensures
        r@ == duration_words(secs),
{
    let mut out = String::new();
    if secs < 60 {
        push_decimal(&mut out, secs);
        out.append(" seconds");
        assert(out@ =~= duration_words(secs));
        return out;
    }
    if secs < 3600 {
        let m: u64 = secs / 60;
        if m == 1 {
            return "1 minute".to_string();
        }
        push_decimal(&mut out, m);
        out.append(" minutes");
        assert(out@ =~= duration_words(secs));
        return out;
    }
    let h: u64 = secs / 3600;
    let m: u64 = secs % 3600 / 60;
    if h == 1 {
        out.append("1 hour");
    } else {
        push_decimal(&mut out, h);
        out.append(" hours");
    }
    if m != 0 {
        out.append(" ");
        push_decimal(&mut out, m);
        out.append(" minutes");
    }
    assert(out@ =~= duration_words(secs));
    out
}

/// The strings among values, in order.
pub open spec fn strings_in(s: Seq<Json>) -> Seq<Seq<char>>
    decreases s.len(),
{
    if s.len() == 0 {
        Seq::empty()
    } else {
        match s.last() {
            Json::Str(t) => strings_in(s.drop_last()).push(t),
            _ => strings_in(s.drop_last()),
        }
    }
}

/// Picks the strings among values.
pub fn pick_strings(v: &Vec<JsonValue>) -> (r: Vec<String>)
    ensures
        views(r@) == strings_in(jsons(v@)),
{
    let ghost all = jsons(v@);
    let mut out: Vec<String> = Vec::new();
    let mut i: usize = 0;
    assert(all.take(0) =~= Seq::empty());
    assert(views(out@) =~= Seq::empty());
    while i < v.len()
        invariant
            0 <= i <= v@.len(),
            all == jsons(v@),
            views(out@) == strings_in(all.take(i as int)),
        decreases v@.len() - i,
    {
        assert(all.take(i + 1).drop_last() =~= all.take(i as int));
        assert(all.take(i + 1).last() == v@[i as int]@);
        if let Some(s) = v[i].as_str() {
            let ghost before = views(out@);
            out.push(s.to_string());
            assert(views(out@) =~= before.push(s@));
        }
        i = i + 1;
    }
    assert(all.take(i as int) =~= all);
    out
}

/// The part of a status that tells of the language server.
pub open spec fn server_section(d: Json) -> Seq<char> {
    match d.get("lsp"@) {
        Some(lsp) => if lsp == Json::Null {
            Seq::empty()
        } else {
            "\n\nLSP Server\n  Language: "@ + lsp.str_or("language"@, "?"@) + "\n  Status:   "@ + lsp.str_or(
                "status"@,
                "?"@,
            ) + "\n  Server:   "@ + lsp.str_or("server"@, "?"@)
        },
        None => Seq::empty(),
    }
}

/// The root that a status names.
pub open spec fn root_section(project: Json) -> Seq<char> {
    match project.get("root"@) {
        Some(Json::Str(root)) => "\n\nProject\n  Root:      "@ + root,
        _ => Seq::empty(),
    }
}

/// The languages that a status names.
pub open spec fn languages_section(project: Json) -> Seq<char> {
    match project.get_array("languages"@) {
        Some(langs) => if strings_in(langs).len() > 0 {
            "\n  Languages: "@ + join(strings_in(langs), ", "@)
        } else {
            Seq::empty()
        },
        None => Seq::empty(),
    }
}

/// The part of a status that tells of the project.
pub open spec fn project_section(d: Json) -> Seq<char> {
    match d.get("project"@) {
        Some(p) => root_section(p) + languages_section(p),
        None => Seq::empty(),
    }
}

/// A status for people.
pub open spec fn status_text(d: Json, daemon: Json) -> Seq<char> {
    "Daemon Status\n  PID:    "@ + decimal(daemon.u64_or("pid"@, 0) as nat) + "\n  Uptime: "@ + duration_words(
        daemon.u64_or("uptime_secs"@, 0),
    ) + server_section(d) + project_section(d)
}

/// An answer for people: a failure, a status, or else indented JSON.
pub open spec fn shown(answer: Answer) -> Seq<char> {
    match answer.error {
        Some(e) => failure_text(e),
        None => match answer.data {
            Some(d) => match d.get("daemon"@) {
                Some(daemon) => status_text(d, daemon),
                None => pretty_text(d),
            },
            None => Seq::empty(),
        },
    }
}

fn push_server_section(out: &mut String, d: &JsonValue)
    ensures
        final(out)@ == old(out)@ + server_section(d@),
{
    if let Some(lsp) = d.get("lsp") {
        if !lsp.is_null() {
            out.append("\n\nLSP Server\n  Language: ");
            out.append(lsp.str_or("language", "?").as_str());
            out.append("\n  Status:   ");
            out.append(lsp.str_or("status", "?").as_str());
            out.append("\n  Server:   ");
            out.append(lsp.str_or("server", "?").as_str());
        }
    }
    assert(final(out)@ =~= old(out)@ + server_section(d@));
}

fn push_project_section(out: &mut String, d: &JsonValue)
    ensures
        final(out)@ == old(out)@ + project_section(d@),
{
    let ghost start = out@;
    if let Some(p) = d.get("project") {
        if let Some(r) = p.get("root") {
            if let Some(root) = r.as_str() {
                out.append("\n\nProject\n  Root:      ");
                out.append(root);
            }
        }
        assert(out@ =~= start + root_section(p@));
        if let Some(langs) = p.get_array("languages") {
            let names = pick_strings(langs);
            assert(views(names@).len() == names@.len());
            if names.len() > 0 {
                out.append("\n  Languages: ");
                out.append(join_strings(&names, ", ").as_str());
            }
        }
        assert(out@ =~= start + (root_section(p@) + languages_section(p@)));
    }
    assert(final(out)@ =~= start + project_section(d@));
}

/// Formats a response as human-readable, aligned output for terminal use.
pub fn format(response: &Response) -> (r: String)
    ensures
        r@ == shown(response@),
{
    if let Some(e) = &response.error {
        let mut out = "Error: ".to_string();
        out.append(e.message.as_str());
        out.append("\nCode:  ");
        out.append(e.code.as_str());
        if let Some(a) = &e.advice {
            out.append("\n\nAdvice: ");
            out.append(a.as_str());
        }
        return out;
    }
    let data = match &response.data {
        Some(d) => d,
        None => {
            return String::new();
        },
    };
    match data.get("daemon") {
        Some(daemon) => {
            let mut out = "Daemon Status\n  PID:    ".to_string();
            push_decimal(&mut out, daemon.u64_or("pid", 0));
            out.append("\n  Uptime: ");
            out.append(format_duration_human(daemon.u64_or("uptime_secs", 0)).as_str());
            push_server_section(&mut out, data);
            push_project_section(&mut out, data);
            out
        },
        None => to_pretty_text(data),
    }
}

/// The strings among values are picked, in order, and nothing else.
pub proof fn all_strings_are_picked(s: Seq<Json>)
    ensures
        strings_in(s) == s.filter(|v: Json| v is Str).map_values(|v: Json| v->Str_0),
    decreases s.len(),
{
    reveal(Seq::filter);
    let p = |v: Json| v is Str;
    let make = |v: Json| v->Str_0;
    if s.len() > 0 {
        all_strings_are_picked(s.drop_last());
        let rest = s.drop_last().filter(p);
        if p(s.last()) {
            assert(rest.push(s.last()).map_values(make) =~= rest.map_values(make).push(make(s.last())));
        }
    } else {
        assert(s.filter(p).map_values(make) =~= Seq::empty());
    }
}

/// A duration is told in seconds below a minute, in minutes below an hour, and else in hours and the minutes left
/// over, where there are any.
pub proof fn duration_is_told_in_its_units(hours: nat, minutes: nat, seconds: nat)
    requires
        minutes < 60,
        seconds < 60,
        hours * 3600 + minutes * 60 + seconds <= u64::MAX,
    ensures
        ({
            let text = duration_words((hours * 3600 + minutes * 60 + seconds) as u64);
            let h = if hours == 1 {
                "1 hour"@
            } else {
                decimal(hours) + " hours"@
            };
            &&& hours == 0 && minutes == 0 ==> text == decimal(seconds) + " seconds"@
            &&& hours == 0 && minutes == 1 ==> text == "1 minute"@
            &&& hours == 0 && minutes > 1 ==> text == decimal(minutes) + " minutes"@
            &&& hours > 0 && minutes == 0 ==> text == h
            &&& hours > 0 && minutes > 0 ==> text == h + " "@ + decimal(minutes) + " minutes"@
        }),
{
    let all = hours * 3600 + minutes * 60 + seconds;
    let rest = minutes * 60 + seconds;
    vstd::arithmetic::div_mod::lemma_fundamental_div_mod_converse(all as int, 3600, hours as int, rest as int);
    vstd::arithmetic::div_mod::lemma_fundamental_div_mod_converse(rest as int, 60, minutes as int, seconds as int);
}

/// A failure tells its message, its code and, apart from them, the advice where there is some.
pub proof fn failure_tells_what_it_says(answer: Answer, e: Failure)
    requires
        answer.error == Some(e),
    ensures
        e.advice is None ==> shown(answer) == "Error: "@ + e.message + "\nCode:  "@ + e.code,
        e.advice matches Some(a) ==> shown(answer) == "Error: "@ + e.message + "\nCode:  "@ + e.code + "\n\nAdvice: "@
            + a,
{
}

} // verus!
