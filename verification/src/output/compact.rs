//! Answers in few words.

use crate::commands::edit::{format_insert, format_replace, insert_line, replace_line};
use crate::commands::find::{Found, Reference};
use crate::daemon::values::{found_list, reference_list, value_tells_of_its_symbol, value_tells_of_its_use};
use crate::json::{entries_view, jsons, key_index, Json, JsonValue};
use crate::lsp::symbols::entry_is_smaller;
use crate::output::human::{pick_strings, strings_in};
use crate::serial::{json_text, to_json_text};
use crate::protocol::{Answer, Failure, Response};
use crate::text::{
    decimal, decimal_of, join, join_strings, lines, pad_left, pad_right, push_decimal, padded_right,
    push_padded_left, split_lines, str_eq, str_trim, str_trim_end, trim, trim_end, views,
};
use vstd::prelude::*;

verus! {

// ── Small parts ─────────────────────────────────────────────────────────────

/// A duration in hours and minutes, or in seconds below one minute.
pub open spec fn duration_text(secs: u64) -> Seq<char> {
    if secs < 60 {
        decimal(secs as nat) + "s"@
    } else if secs < 3600 {
        decimal(secs as nat / 60) + "m"@
    } else if secs as nat % 3600 / 60 == 0 {
        decimal(secs as nat / 3600) + "h"@
    } else {
        decimal(secs as nat / 3600) + "h"@ + decimal(secs as nat % 3600 / 60) + "m"@
    }
}

/// Formats a duration.
pub fn format_duration(secs: u64) -> (r: String)
    ensures
        r@ == duration_text(secs),
{
    let mut out = String::new();
    if secs < 60 {
        push_decimal(&mut out, secs);
        out.append("s");
    } else if secs < 3600 {
        push_decimal(&mut out, secs / 60);
        out.append("m");
    } else {
        push_decimal(&mut out, secs / 3600);
        out.append("h");
        let m: u64 = secs % 3600 / 60;
        if m != 0 {
            push_decimal(&mut out, m);
            out.append("m");
        }
    }
    assert(out@ =~= duration_text(secs));
    out
}

/// A failure.
pub open spec fn failure_text(e: Failure) -> Seq<char> {
    let base = "error: "@ + e.message + " ("@ + e.code + ")"@;
    match e.advice {
        Some(a) => base + "\nadvice: "@ + a,
        None => base,
    }
}

/// How long indexing took: nothing where no time passed.
pub open spec fn elapsed_text(ms: u64) -> Seq<char> {
    if ms >= 1000 {
        " in "@ + decimal(ms as nat / 1000) + "."@ + decimal(ms as nat % 1000 / 100) + "s"@
    } else if ms > 0 {
        " in "@ + decimal(ms as nat) + "ms"@
    } else {
        Seq::empty()
    }
}

/// What indexing did.
pub open spec fn init_text(d: Json) -> Seq<char> {
    let files = decimal(d.u64_or("files_indexed"@, 0) as nat);
    let symbols = decimal(d.u64_or("symbols_total"@, 0) as nat);
    let time = elapsed_text(d.u64_or("elapsed_ms"@, 0));
    if d.u64_or("files_cached"@, 0) > 0 {
        "indexed "@ + files + "/"@ + decimal(d.u64_or("files_total"@, 0) as nat) + " files ("@ + decimal(
            d.u64_or("files_cached"@, 0) as nat,
        ) + " cached), "@ + symbols + " symbols"@ + time
    } else {
        "indexed "@ + files + " files, "@ + symbols + " symbols"@ + time
    }
}

fn push_elapsed(out: &mut String, ms: u64)
    ensures
        final(out)@ == old(out)@ + elapsed_text(ms),
{
    if ms >= 1000 {
        out.append(" in ");
        push_decimal(out, ms / 1000);
        out.append(".");
        push_decimal(out, ms % 1000 / 100);
        out.append("s");
    } else if ms > 0 {
        out.append(" in ");
        push_decimal(out, ms);
        out.append("ms");
    }
    assert(final(out)@ =~= old(out)@ + elapsed_text(ms));
}

fn format_init(data: &JsonValue) -> (r: String)
    ensures
        r@ == init_text(data@),
{
    let cached: u64 = data.u64_or("files_cached", 0);
    let mut out = "indexed ".to_string();
    push_decimal(&mut out, data.u64_or("files_indexed", 0));
    if cached > 0 {
        out.append("/");
        push_decimal(&mut out, data.u64_or("files_total", 0));
        out.append(" files (");
        push_decimal(&mut out, cached);
        out.append(" cached), ");
    } else {
        out.append(" files, ");
    }
    push_decimal(&mut out, data.u64_or("symbols_total", 0));
    out.append(" symbols");
    push_elapsed(&mut out, data.u64_or("elapsed_ms", 0));
    assert(out@ =~= init_text(data@));
    out
}

/// The heading of what was read.
pub open spec fn content_header(d: Json) -> Seq<char> {
    let path = d.str_or("path"@, "?"@);
    let range = decimal(d.u64_or("from"@, 0) as nat) + "-"@ + decimal(d.u64_or("to"@, 0) as nat);
    let head = match d.get("symbol"@) {
        Some(Json::Str(symbol)) => d.str_or("kind"@, "?"@) + " "@ + symbol + " in "@ + path + " ("@ + range + ")"@,
        _ => path + " ("@ + range + match d.get("total"@) {
            Some(t) => match t.as_u64() {
                Some(n) => "/"@ + decimal(n as nat),
                None => Seq::empty(),
            },
            None => Seq::empty(),
        } + ")"@,
    };
    if d.is_true("truncated"@) {
        head + " [truncated]"@
    } else {
        head
    }
}

/// What was read, below its heading.
pub open spec fn content_text(d: Json) -> Seq<char> {
    content_header(d) + "\n"@ + trim_end(d.str_or("content"@, ""@))
}

fn format_file_content(data: &JsonValue) -> (r: String)
    ensures
        r@ == content_text(data@),
{
    let path = data.str_or("path", "?");
    let mut range = decimal_of(data.u64_or("from", 0));
    range.append("-");
    push_decimal(&mut range, data.u64_or("to", 0));
    let mut out = String::new();
    let symbol = match data.get("symbol") {
        Some(s) => s.as_str(),
        None => None,
    };
    match symbol {
        Some(s) => {
            out.append(data.str_or("kind", "?").as_str());
            out.append(" ");
            out.append(s);
            out.append(" in ");
            out.append(path.as_str());
            out.append(" (");
            out.append(range.as_str());
            out.append(")");
        },
        None => {
            out.append(path.as_str());
            out.append(" (");
            out.append(range.as_str());
            if let Some(t) = data.get("total") {
                if let Some(n) = t.as_u64() {
                    out.append("/");
                    push_decimal(&mut out, n);
                }
            }
            out.append(")");
        },
    }
    if data.is_true("truncated") {
        out.append(" [truncated]");
    }
    assert(out@ =~= content_header(data@));
    out.append("\n");
    out.append(str_trim_end(data.str_or("content", "").as_str()).as_str());
    out
}

// ── Status ──────────────────────────────────────────────────────────────────

/// One language server in a status.
pub open spec fn server_line(s: Json) -> Seq<char> {
    let status = s.str_or("status"@, "?"@);
    "\n  "@ + s.str_or("language"@, "?"@) + " ("@ + s.str_or("server"@, "?"@) + ") — "@ + decimal(
        s.u64_or("attached_folders"@, 0) as nat,
    ) + "/"@ + decimal(s.u64_or("total_folders"@, 0) as nat) + " folders"@ + if status == "ready"@ {
        Seq::empty()
    } else {
        " ["@ + status + "]"@
    }
}

/// The language servers in a status.
pub open spec fn server_lines(s: Seq<Json>) -> Seq<char>
    decreases s.len(),
{
    if s.len() == 0 {
        Seq::empty()
    } else {
        server_lines(s.drop_last()) + server_line(s.last())
    }
}

/// The part of a status that tells of language servers.
pub open spec fn lsp_text(lsp: Json) -> Seq<char> {
    let status = lsp.str_or("status"@, "?"@);
    let progress = lsp.str_or("progress"@, ""@);
    match lsp.get_array("servers"@) {
        Some(servers) => "\nlsp: "@ + decimal(lsp.u64_or("sessions"@, 0) as nat) + " servers"@ + (if status != "ready"@
            && progress.len() > 0 {
            " ["@ + status + " "@ + progress + "]"@
        } else {
            Seq::empty()
        }) + server_lines(servers),
        None => if status == "pending"@ && progress.len() > 0 {
            "\nlsp: pending ("@ + progress + ")"@
        } else {
            "\nlsp: "@ + lsp.str_or("language"@, "?"@) + " "@ + status + " ("@ + lsp.str_or("server"@, "?"@) + ")"@
        },
    }
}

/// The part of a status that names the config, where there is one.
pub open spec fn config_text(d: Json) -> Seq<char> {
    match d.get("config"@) {
        Some(Json::Str(config)) => if config != "auto-detected"@ {
            "\nconfig: "@ + config + " ("@ + decimal(
                match d.get("project"@) {
                    Some(p) => p.u64_or("workspaces"@, 0) as nat,
                    None => 0,
                },
            ) + " workspaces)"@
        } else {
            Seq::empty()
        },
        _ => Seq::empty(),
    }
}

/// The part of a status that counts workspaces.
pub open spec fn workspaces_text(p: Json) -> Seq<char> {
    if p.u64_or("workspaces_discovered"@, 0) > 0 {
        "\nworkspaces: "@ + decimal(p.u64_or("workspaces_discovered"@, 0) as nat) + " discovered, "@ + decimal(
            p.u64_or("workspaces_attached"@, 0) as nat,
        ) + " attached"@
    } else {
        Seq::empty()
    }
}

/// The part of a status that names languages.
pub open spec fn languages_text(p: Json) -> Seq<char> {
    match p.get_array("languages"@) {
        Some(langs) => if strings_in(langs).len() > 0 {
            "\nproject: languages=["@ + join(strings_in(langs), ","@) + "]"@
        } else {
            Seq::empty()
        },
        None => Seq::empty(),
    }
}

/// The part of a status that tells of the project.
pub open spec fn project_text(d: Json) -> Seq<char> {
    match d.get("project"@) {
        Some(p) => workspaces_text(p) + languages_text(p),
        None => Seq::empty(),
    }
}

/// The part of a status that tells of the index.
pub open spec fn index_text(d: Json) -> Seq<char> {
    match d.get("index"@) {
        Some(i) => if i.is_true("watcher_active"@) {
            "\nindex: watcher active, "@ + decimal(i.u64_or("dirty_files"@, 0) as nat) + " dirty files"@
        } else {
            "\nindex: watcher inactive (BLAKE3 fallback)"@
        },
        None => Seq::empty(),
    }
}

/// The part of a status that tells of language servers, where there are any.
pub open spec fn servers_part(d: Json) -> Seq<char> {
    match d.get("lsp"@) {
        Some(lsp) => if lsp == Json::Null {
            Seq::empty()
        } else {
            lsp_text(lsp)
        },
        None => Seq::empty(),
    }
}

/// A status.
pub open spec fn status_text(d: Json, daemon: Json) -> Seq<char> {
    "daemon: pid="@ + decimal(daemon.u64_or("pid"@, 0) as nat) + " uptime="@ + duration_text(
        daemon.u64_or("uptime_secs"@, 0),
    ) + config_text(d) + servers_part(d) + project_text(d) + index_text(d)
}

fn format_server_line(s: &JsonValue) -> (r: String)
    ensures
        r@ == server_line(s@),
{
    let status = s.str_or("status", "?");
    let state_tag = if str_eq(status.as_str(), "ready") {
        String::new()
    } else {
        bracketed(status.as_str())
    };
    let mut line = "\n  ".to_string();
    line.append(s.str_or("language", "?").as_str());
    line.append(" (");
    line.append(s.str_or("server", "?").as_str());
    line.append(") — ");
    line.append(decimal_of(s.u64_or("attached_folders", 0)).as_str());
    line.append("/");
    line.append(decimal_of(s.u64_or("total_folders", 0)).as_str());
    line.append(" folders");
    line.append(state_tag.as_str());
    line
}

fn push_server_lines(out: &mut String, servers: &Vec<JsonValue>)
    ensures
        final(out)@ == old(out)@ + server_lines(jsons(servers@)),
{
    let ghost all = jsons(servers@);
    let ghost start = out@;
    let mut i: usize = 0;
    assert(all.take(0) =~= Seq::empty());
    assert(out@ =~= start + server_lines(all.take(0)));
    while i < servers.len()
        invariant
            0 <= i <= servers@.len(),
            all == jsons(servers@),
            out@ == start + server_lines(all.take(i as int)),
        decreases servers@.len() - i,
    {
        let s = &servers[i];
        assert(all.take(i + 1).drop_last() =~= all.take(i as int));
        assert(all.take(i + 1).last() == s@);
        out.append(format_server_line(s).as_str());
        assert(out@ =~= start + server_lines(all.take(i + 1)));
        i = i + 1;
    }
    assert(all.take(i as int) =~= all);
}

fn format_lsp_status(lsp: &JsonValue) -> (r: String)
    ensures
        r@ == lsp_text(lsp@),
{
    let status = lsp.str_or("status", "?");
    let progress = lsp.str_or("progress", "");
    match lsp.get_array("servers") {
        Some(servers) => {
            let tag = if !str_eq(status.as_str(), "ready") && !progress.as_str().is_empty() {
                let mut t = " [".to_string();
                t.append(status.as_str());
                t.append(" ");
                t.append(progress.as_str());
                t.append("]");
                t
            } else {
                String::new()
            };
            let mut out = "\nlsp: ".to_string();
            out.append(decimal_of(lsp.u64_or("sessions", 0)).as_str());
            out.append(" servers");
            out.append(tag.as_str());
            push_server_lines(&mut out, servers);
            out
        },
        None => {
            if str_eq(status.as_str(), "pending") && !progress.as_str().is_empty() {
                let mut out = "\nlsp: pending (".to_string();
                out.append(progress.as_str());
                out.append(")");
                out
            } else {
                let mut out = "\nlsp: ".to_string();
                out.append(lsp.str_or("language", "?").as_str());
                out.append(" ");
                out.append(status.as_str());
                out.append(" (");
                out.append(lsp.str_or("server", "?").as_str());
                out.append(")");
                out
            }
        },
    }
}

fn push_config(out: &mut String, data: &JsonValue)
    ensures
        final(out)@ == old(out)@ + config_text(data@),
{
    if let Some(c) = data.get("config") {
        if let Some(config) = c.as_str() {
            if !str_eq(config, "auto-detected") {
                let count: u64 = match data.get("project") {
                    Some(p) => p.u64_or("workspaces", 0),
                    None => 0,
                };
                out.append("\nconfig: ");
                out.append(config);
                out.append(" (");
                push_decimal(out, count);
                out.append(" workspaces)");
            }
        }
    }
    assert(final(out)@ =~= old(out)@ + config_text(data@));
}

fn push_project(out: &mut String, data: &JsonValue)
    ensures
        final(out)@ == old(out)@ + project_text(data@),
{
    let ghost start = out@;
    if let Some(p) = data.get("project") {
        let discovered: u64 = p.u64_or("workspaces_discovered", 0);
        if discovered > 0 {
            out.append("\nworkspaces: ");
            push_decimal(out, discovered);
            out.append(" discovered, ");
            push_decimal(out, p.u64_or("workspaces_attached", 0));
            out.append(" attached");
        }
        assert(out@ =~= start + workspaces_text(p@));
        if let Some(langs) = p.get_array("languages") {
            let names = pick_strings(langs);
            assert(views(names@).len() == names@.len());
            if names.len() > 0 {
                out.append("\nproject: languages=[");
                out.append(join_strings(&names, ",").as_str());
                out.append("]");
            }
        }
        assert(out@ =~= start + (workspaces_text(p@) + languages_text(p@)));
    }
    assert(final(out)@ =~= start + project_text(data@));
}

fn push_index(out: &mut String, data: &JsonValue)
    ensures
        final(out)@ == old(out)@ + index_text(data@),
{
    if let Some(i) = data.get("index") {
        if i.is_true("watcher_active") {
            out.append("\nindex: watcher active, ");
            push_decimal(out, i.u64_or("dirty_files", 0));
            out.append(" dirty files");
        } else {
            out.append("\nindex: watcher inactive (BLAKE3 fallback)");
        }
    }
    assert(final(out)@ =~= old(out)@ + index_text(data@));
}

fn format_status(data: &JsonValue, daemon: &JsonValue) -> (r: String)
    ensures
        r@ == status_text(data@, daemon@),
{
    let mut out = "daemon: pid=".to_string();
    push_decimal(&mut out, daemon.u64_or("pid", 0));
    out.append(" uptime=");
    out.append(format_duration(daemon.u64_or("uptime_secs", 0)).as_str());
    push_config(&mut out, data);
    let ghost before = out@;
    if let Some(lsp) = data.get("lsp") {
        if !lsp.is_null() {
            out.append(format_lsp_status(lsp).as_str());
        }
    }
    assert(out@ =~= before + servers_part(data@));
    push_project(&mut out, data);
    push_index(&mut out, data);
    out
}

// ── Trees of symbols ────────────────────────────────────────────────────────

/// Symbols as lines of kind and name behind `prefix`, the children of each below it, two spaces
/// further in.
pub open spec fn tree_text(items: Seq<Json>, prefix: Seq<char>) -> Seq<char>
    decreases items,
{
    if items.len() == 0 {
        Seq::empty()
    } else {
        let item = items.last();
        tree_text(items.drop_last(), prefix) + prefix + item.str_or("kind"@, "?"@) + " "@ + item.str_or("name"@, "?"@)
            + "\n"@ + match item {
            Json::Obj(entries) => {
                let i = key_index(entries, "children"@);
                if 0 <= i < entries.len() {
                    match entries[i].1 {
                        Json::Arr(children) => tree_text(children, prefix + "  "@),
                        _ => Seq::empty(),
                    }
                } else {
                    Seq::empty()
                }
            },
            _ => Seq::empty(),
        }
    }
}

/// The children of a symbol, as text.
pub open spec fn below_text(item: Json, prefix: Seq<char>) -> Seq<char> {
    match item.get_array("children"@) {
        Some(children) => tree_text(children, prefix + "  "@),
        None => Seq::empty(),
    }
}

fn push_symbol_tree(items: &Vec<JsonValue>, out: &mut String, prefix: &str)
    ensures
        final(out)@ == old(out)@ + tree_text(jsons(items@), prefix@),
    decreases items,
{
    let ghost all = jsons(items@);
    let ghost start = out@;
    let mut i: usize = 0;
    assert(all.take(0) =~= Seq::empty());
    assert(out@ =~= start + tree_text(all.take(0), prefix@));
    while i < items.len()
        invariant
            0 <= i <= items@.len(),
            all == jsons(items@),
            out@ == start + tree_text(all.take(i as int), prefix@),
        decreases items@.len() - i,
    {
        let item = &items[i];
        assert(all.take(i + 1).drop_last() =~= all.take(i as int));
        assert(all.take(i + 1).last() == item@);
        out.append(prefix);
        out.append(item.str_or("kind", "?").as_str());
        out.append(" ");
        out.append(item.str_or("name", "?").as_str());
        out.append("\n");
        let ghost mid = out@;
        assert(decreases_to!(items => items@[i as int]));
        push_children(item, out, prefix);
        assert(out@ =~= start + tree_text(all.take(i + 1), prefix@));
        i = i + 1;
    }
    assert(all.take(i as int) =~= all);
}

fn push_children(item: &JsonValue, out: &mut String, prefix: &str)
    ensures
        final(out)@ == old(out)@ + below_text(item@, prefix@),
    decreases item,
{
    match item {
        JsonValue::Object(entries) => {
            proof {
                JsonValue::object_view(*entries);
            }
            let ghost all = entries_view(entries@);
            let mut i: usize = 0;
            assert(all.skip(0) =~= all);
            while i < entries.len() && !str_eq(entries[i].0.as_str(), "children")
                invariant
                    0 <= i <= entries@.len(),
                    all == entries_view(entries@),
                    key_index(all, "children"@) == i + key_index(all.skip(i as int), "children"@),
                decreases entries@.len() - i,
            {
                assert(all.skip(i as int)[0] == all[i as int]);
                assert(all.skip(i as int).drop_first() =~= all.skip(i + 1));
                i = i + 1;
            }
            if i < entries.len() {
                proof {
                    assert(all.skip(i as int)[0] == all[i as int]);
                    entry_is_smaller(*item, i as int);
                }
                match &entries[i].1 {
                    JsonValue::Array(children) => {
                        proof {
                            JsonValue::array_view(*children);
                            assert(decreases_to!(entries@[i as int].1 => entries@[i as int].1->Array_0));
                        }
                        let mut inner = prefix.to_string();
                        inner.append("  ");
                        push_symbol_tree(children, out, inner.as_str());
                    },
                    _ => {},
                }
            }
        },
        _ => {},
    }
    assert(final(out)@ =~= old(out)@ + below_text(item@, prefix@));
}

/// The symbols of one file of a directory.
pub open spec fn dir_entry_text(e: Json) -> Seq<char> {
    e.str_or("file"@, "?"@) + "\n"@ + match e.get_array("symbols"@) {
        Some(s) => tree_text(s, "  "@),
        None => Seq::empty(),
    }
}

/// The symbols of the first `n` files, a blank line after each that is not the last.
pub open spec fn dir_text(files: Seq<Json>, n: int) -> Seq<char>
    decreases n,
{
    if n <= 0 {
        Seq::empty()
    } else {
        dir_text(files, n - 1) + dir_entry_text(files[n - 1]) + if n < files.len() {
            "\n"@
        } else {
            Seq::empty()
        }
    }
}

/// The symbols of a directory.
pub open spec fn directory_text(d: Json) -> Seq<char> {
    match d.get_array("files"@) {
        Some(files) => if files.len() > 0 {
            trim_end(dir_text(files, files.len() as int))
        } else {
            "no results"@
        },
        None => "no results"@,
    }
}

fn format_dir_symbols(data: &JsonValue) -> (r: String)
    ensures
        r@ == directory_text(data@),
{
    let files = match data.get_array("files") {
        Some(f) => f,
        None => {
            return "no results".to_string();
        },
    };
    let n: usize = files.len();
    let ghost all = jsons(files@);
    if n == 0 {
        return "no results".to_string();
    }
    let mut out = String::new();
    let mut i: usize = 0;
    while i < n
        invariant
            0 <= i <= n,
            n == files@.len(),
            all == jsons(files@),
            out@ == dir_text(all, i as int),
        decreases n - i,
    {
        let e = &files[i];
        let ghost start = out@;
        out.append(e.str_or("file", "?").as_str());
        out.append("\n");
        if let Some(symbols) = e.get_array("symbols") {
            push_symbol_tree(symbols, &mut out, "  ");
        }
        assert(all[i as int] == e@);
        assert(out@ =~= start + dir_entry_text(e@));
        if i + 1 < n {
            out.append("\n");
        }
        i = i + 1;
        assert(out@ =~= dir_text(all, i as int));
    }
    str_trim_end(out.as_str())
}

// ── Lists of places ─────────────────────────────────────────────────────────

/// One reference with the symbol that contains it.
pub open spec fn enriched_line(item: Json) -> Seq<char> {
    let place = item.str_or("path"@, "?"@) + ":"@ + decimal(item.u64_or("line"@, 0) as nat);
    let preview = trim(item.str_or("preview"@, ""@));
    if item.is_true("is_definition"@) {
        place + "  [definition]  "@ + preview + "\n"@
    } else {
        place + match item.get("containing_symbol"@) {
            Some(c) => "  [in "@ + c.str_or("name"@, "?"@) + " ("@ + c.str_or("kind"@, "?"@) + ":"@ + decimal(
                c.u64_or("line"@, 0) as nat,
            ) + ")]"@,
            None => Seq::empty(),
        } + "  "@ + preview + "\n"@
    }
}

/// References with the symbols that contain them.
pub open spec fn enriched_lines(items: Seq<Json>) -> Seq<char>
    decreases items.len(),
{
    if items.len() == 0 {
        Seq::empty()
    } else {
        enriched_lines(items.drop_last()) + enriched_line(items.last())
    }
}

/// The first `n` lines of a body, each behind its number and a tab.
pub open spec fn body_text(ls: Seq<Seq<char>>, first: u64, n: int) -> Seq<char>
    decreases n,
{
    if n <= 0 {
        Seq::empty()
    } else {
        body_text(ls, first, n - 1) + "  "@ + pad_left(decimal(first.wrapping_add((n - 1) as u64) as nat), 4) + "\t"@
            + ls[n - 1] + "\n"@
    }
}

/// The line of a place.
pub open spec fn place_head(item: Json, path: Seq<char>) -> Seq<char> {
    let kind = item.str_or("kind"@, ""@);
    path + ":"@ + decimal(item.u64_or("line"@, 0) as nat) + " "@ + (if kind.len() == 0 {
        Seq::empty()
    } else {
        kind + " "@
    }) + item.str_or("preview"@, ""@) + (if item.is_true("is_definition"@) {
        " [definition]"@
    } else {
        ""@
    }) + "\n"@
}

/// The body of a place, where it has one.
pub open spec fn place_body(item: Json) -> Seq<char> {
    match item.get("body"@) {
        Some(Json::Str(body)) => body_text(lines(body), item.u64_or("line"@, 0), lines(body).len() as int)
            + "---\n"@,
        _ => Seq::empty(),
    }
}

/// One place, with its body where it has one.
pub open spec fn place_text(item: Json) -> Seq<char> {
    match item.get("path"@) {
        Some(Json::Str(path)) => place_head(item, path) + place_body(item),
        _ => Seq::empty(),
    }
}

/// A list of places.
pub open spec fn place_lines(items: Seq<Json>) -> Seq<char>
    decreases items.len(),
{
    if items.len() == 0 {
        Seq::empty()
    } else {
        place_lines(items.drop_last()) + place_text(items.last())
    }
}

/// Some item tells which symbol contains it.
pub open spec fn is_enriched(items: Seq<Json>) -> bool {
    exists|i: int| 0 <= i < items.len() && (#[trigger] items[i]).get("containing_symbol"@) is Some
}

/// A list of results.
pub open spec fn list_text(items: Seq<Json>) -> Seq<char> {
    if items.len() == 0 {
        "no results"@
    } else if items[0].get("name"@) is Some && items[0].get("path"@) is None {
        trim_end(tree_text(items, Seq::empty()))
    } else if is_enriched(items) {
        trim_end(enriched_lines(items))
    } else {
        trim_end(place_lines(items))
    }
}

fn format_enriched(item: &JsonValue) -> (r: String)
    ensures
        r@ == enriched_line(item@),
{
    let preview = str_trim(item.str_or("preview", "").as_str());
    let mut line = item.str_or("path", "?");
    line.append(":");
    line.append(decimal_of(item.u64_or("line", 0)).as_str());
    if item.is_true("is_definition") {
        line.append("  [definition]  ");
        line.append(preview.as_str());
        line.append("\n");
        return line;
    }
    let tag = match item.get("containing_symbol") {
        Some(c) => {
            let mut t = "  [in ".to_string();
            t.append(c.str_or("name", "?").as_str());
            t.append(" (");
            t.append(c.str_or("kind", "?").as_str());
            t.append(":");
            t.append(decimal_of(c.u64_or("line", 0)).as_str());
            t.append(")]");
            t
        },
        None => String::new(),
    };
    line.append(tag.as_str());
    line.append("  ");
    line.append(preview.as_str());
    line.append("\n");
    line
}

fn push_enriched_refs(items: &Vec<JsonValue>, out: &mut String)
    ensures
        final(out)@ == old(out)@ + enriched_lines(jsons(items@)),
{
    let ghost all = jsons(items@);
    let ghost start = out@;
    let mut i: usize = 0;
    assert(all.take(0) =~= Seq::empty());
    assert(out@ =~= start + enriched_lines(all.take(0)));
    while i < items.len()
        invariant
            0 <= i <= items@.len(),
            all == jsons(items@),
            out@ == start + enriched_lines(all.take(i as int)),
        decreases items@.len() - i,
    {
        let item = &items[i];
        assert(all.take(i + 1).drop_last() =~= all.take(i as int));
        assert(all.take(i + 1).last() == item@);
        let line = format_enriched(item);
        out.append(line.as_str());
        assert(out@ =~= start + enriched_lines(all.take(i + 1)));
        i = i + 1;
    }
    assert(all.take(i as int) =~= all);
}

fn push_body(out: &mut String, body: &str, first: u64)
    ensures
        final(out)@ == old(out)@ + body_text(lines(body@), first, lines(body@).len() as int),
{
    let ls = split_lines(body);
    let ghost all = views(ls@);
    let n: usize = ls.len();
    assert(all.len() == n);
    let ghost start = out@;
    let mut i: usize = 0;
    assert(out@ =~= start + body_text(all, first, 0));
    while i < n
        invariant
            0 <= i <= n,
            n == ls@.len(),
            all == views(ls@),
            out@ == start + body_text(all, first, i as int),
        decreases n - i,
    {
        let num = decimal_of(first.wrapping_add(i as u64));
        out.append("  ");
        push_padded_left(out, num.as_str(), 4);
        out.append("\t");
        out.append(ls[i].as_str());
        out.append("\n");
        assert(all[i as int] == ls@[i as int]@);
        i = i + 1;
        assert(out@ =~= start + body_text(all, first, i as int));
    }
}

fn format_place_head(item: &JsonValue, path: &str) -> (r: String)
    ensures
        r@ == place_head(item@, path@),
{
    let kind = item.str_or("kind", "");
    let kind_part = if kind.as_str().is_empty() {
        String::new()
    } else {
        let mut k = kind;
        k.append(" ");
        k
    };
    let mut line = path.to_string();
    line.append(":");
    line.append(decimal_of(item.u64_or("line", 0)).as_str());
    line.append(" ");
    line.append(kind_part.as_str());
    line.append(item.str_or("preview", "").as_str());
    line.append(
        if item.is_true("is_definition") {
            " [definition]"
        } else {
            ""
        },
    );
    line.append("\n");
    line
}

fn push_place(out: &mut String, item: &JsonValue)
    ensures
        final(out)@ == old(out)@ + place_text(item@),
{
    let ghost start = out@;
    if let Some(path) = get_str(item, "path") {
        out.append(format_place_head(item, path).as_str());
        let ghost mid = out@;
        if let Some(body) = get_str(item, "body") {
            push_body(out, body, item.u64_or("line", 0));
            out.append("---\n");
        }
        assert(out@ =~= mid + place_body(item@));
    }
    assert(final(out)@ =~= start + place_text(item@));
}

fn format_list(items: &Vec<JsonValue>) -> (r: String)
    ensures
        r@ == list_text(jsons(items@)),
{
    let ghost all = jsons(items@);
    if items.len() == 0 {
        return "no results".to_string();
    }
    let mut out = String::new();
    assert(all[0] == items@[0]@);
    if items[0].has("name") && !items[0].has("path") {
        proof {
            reveal_strlit("");
            assert(""@ =~= Seq::empty());
        }
        push_symbol_tree(items, &mut out, "");
        assert(out@ =~= tree_text(all, Seq::empty()));
        return str_trim_end(out.as_str());
    }
    let mut enriched = false;
    let mut i: usize = 0;
    while i < items.len()
        invariant
            0 <= i <= items@.len(),
            all == jsons(items@),
            enriched == exists|k: int| 0 <= k < i && (#[trigger] all[k]).get("containing_symbol"@) is Some,
        decreases items@.len() - i,
    {
        assert(all[i as int] == items@[i as int]@);
        if items[i].has("containing_symbol") {
            enriched = true;
        }
        i = i + 1;
    }
    if enriched {
        push_enriched_refs(items, &mut out);
        assert(out@ =~= enriched_lines(all));
        return str_trim_end(out.as_str());
    }
    let mut j: usize = 0;
    assert(all.take(0) =~= Seq::empty());
    while j < items.len()
        invariant
            0 <= j <= items@.len(),
            all == jsons(items@),
            out@ == place_lines(all.take(j as int)),
        decreases items@.len() - j,
    {
        assert(all.take(j + 1).drop_last() =~= all.take(j as int));
        assert(all.take(j + 1).last() == items@[j as int]@);
        push_place(&mut out, &items[j]);
        j = j + 1;
    }
    assert(all.take(j as int) =~= all);
    str_trim_end(out.as_str())
}

// ── Diagnostics ─────────────────────────────────────────────────────────────

/// One diagnostic.
pub open spec fn diagnostic_line(d: Json) -> Seq<char> {
    let code = d.str_or("code"@, ""@);
    pad_right(d.str_or("severity"@, "?"@), 5) + " "@ + d.str_or("path"@, "?"@) + ":"@ + decimal(
        d.u64_or("line"@, 0) as nat,
    ) + ":"@ + decimal(d.u64_or("col"@, 0) as nat) + " "@ + (if code.len() == 0 {
        Seq::empty()
    } else {
        code + " "@
    }) + d.str_or("message"@, ""@) + "\n"@
}

/// Diagnostics, one on a line.
pub open spec fn diagnostic_lines(s: Seq<Json>) -> Seq<char>
    decreases s.len(),
{
    if s.len() == 0 {
        Seq::empty()
    } else {
        diagnostic_lines(s.drop_last()) + diagnostic_line(s.last())
    }
}

/// A number of things.
pub open spec fn count_text(n: u64, one: Seq<char>) -> Seq<char> {
    decimal(n as nat) + " "@ + one + if n == 1 {
        ""@
    } else {
        "s"@
    }
}

/// How many diagnostics there are, and how many of them are errors and warnings.
pub open spec fn check_summary(d: Json) -> Seq<char> {
    let errors = d.u64_or("errors"@, 0);
    let warnings = d.u64_or("warnings"@, 0);
    count_text(d.u64_or("total"@, 0), "diagnostic"@) + if errors > 0 && warnings > 0 {
        " ("@ + count_text(errors, "error"@) + ", "@ + count_text(warnings, "warning"@) + ")"@
    } else if errors > 0 {
        " ("@ + count_text(errors, "error"@) + ")"@
    } else if warnings > 0 {
        " ("@ + count_text(warnings, "warning"@) + ")"@
    } else {
        Seq::empty()
    }
}

/// The answer to a check.
pub open spec fn check_text(d: Json, diags: Seq<Json>) -> Seq<char> {
    if diags.len() == 0 {
        "No diagnostics"@
    } else {
        diagnostic_lines(diags) + check_summary(d)
    }
}

fn push_count(out: &mut String, n: u64, one: &str)
    ensures
        final(out)@ == old(out)@ + count_text(n, one@),
{
    push_decimal(out, n);
    out.append(" ");
    out.append(one);
    out.append(
        if n == 1 {
            ""
        } else {
            "s"
        },
    );
    assert(final(out)@ =~= old(out)@ + count_text(n, one@));
}

fn push_check_summary(out: &mut String, data: &JsonValue)
    ensures
        final(out)@ == old(out)@ + check_summary(data@),
{
    let errors: u64 = data.u64_or("errors", 0);
    let warnings: u64 = data.u64_or("warnings", 0);
    push_count(out, data.u64_or("total", 0), "diagnostic");
    if errors > 0 || warnings > 0 {
        out.append(" (");
        if errors > 0 {
            push_count(out, errors, "error");
            if warnings > 0 {
                out.append(", ");
            }
        }
        if warnings > 0 {
            push_count(out, warnings, "warning");
        }
        out.append(")");
    }
    assert(final(out)@ =~= old(out)@ + check_summary(data@));
}

fn format_diagnostic(d: &JsonValue) -> (r: String)
    ensures
        r@ == diagnostic_line(d@),
{
    let code = d.str_or("code", "");
    let code_part = if code.as_str().is_empty() {
        String::new()
    } else {
        let mut c = code;
        c.append(" ");
        c
    };
    let mut line = padded_right(d.str_or("severity", "?").as_str(), 5);
    line.append(" ");
    line.append(d.str_or("path", "?").as_str());
    line.append(":");
    line.append(decimal_of(d.u64_or("line", 0)).as_str());
    line.append(":");
    line.append(decimal_of(d.u64_or("col", 0)).as_str());
    line.append(" ");
    line.append(code_part.as_str());
    line.append(d.str_or("message", "").as_str());
    line.append("\n");
    line
}

fn format_check(data: &JsonValue, diags: &Vec<JsonValue>) -> (r: String)
    ensures
        r@ == check_text(data@, jsons(diags@)),
{
    let ghost all = jsons(diags@);
    if diags.len() == 0 {
        return "No diagnostics".to_string();
    }
    let mut out = String::new();
    let mut i: usize = 0;
    assert(all.take(0) =~= Seq::empty());
    while i < diags.len()
        invariant
            0 <= i <= diags@.len(),
            all == jsons(diags@),
            out@ == diagnostic_lines(all.take(i as int)),
        decreases diags@.len() - i,
    {
        let d = &diags[i];
        assert(all.take(i + 1).drop_last() =~= all.take(i as int));
        assert(all.take(i + 1).last() == d@);
        out.append(format_diagnostic(d).as_str());
        i = i + 1;
    }
    assert(all.take(i as int) =~= all);
    push_check_summary(&mut out, data);
    out
}

// ── Other answers ───────────────────────────────────────────────────────────

/// Hover information.
pub open spec fn hover_text(d: Json) -> Seq<char> {
    let content = trim(d.str_or("hover_content"@, ""@));
    let place = d.str_or("path"@, "?"@) + ":"@ + decimal(d.u64_or("line"@, 0) as nat);
    if content.len() == 0 {
        "No hover information available ("@ + place + ")"@
    } else {
        content + "\n"@ + place
    }
}

fn format_hover(data: &JsonValue) -> (r: String)
    ensures
        r@ == hover_text(data@),
{
    let content = str_trim(data.str_or("hover_content", "").as_str());
    let mut place = data.str_or("path", "?");
    place.append(":");
    push_decimal(&mut place, data.u64_or("line", 0));
    let mut out = String::new();
    if content.as_str().is_empty() {
        out.append("No hover information available (");
        out.append(place.as_str());
        out.append(")");
    } else {
        out.append(content.as_str());
        out.append("\n");
        out.append(place.as_str());
    }
    assert(out@ =~= hover_text(data@));
    out
}

/// What formatting did.
pub open spec fn format_text(d: Json) -> Seq<char> {
    let n = d.u64_or("edits_applied"@, 0);
    if n == 0 {
        "No changes needed ("@ + d.str_or("path"@, "?"@) + ")"@
    } else {
        "Formatted "@ + d.str_or("path"@, "?"@) + " ("@ + decimal(n as nat) + " edits)"@
    }
}

fn format_format(data: &JsonValue) -> (r: String)
    ensures
        r@ == format_text(data@),
{
    let n: u64 = data.u64_or("edits_applied", 0);
    if n == 0 {
        let mut out = "No changes needed (".to_string();
        out.append(data.str_or("path", "?").as_str());
        out.append(")");
        out
    } else {
        let mut out = "Formatted ".to_string();
        out.append(data.str_or("path", "?").as_str());
        out.append(" (");
        push_decimal(&mut out, n);
        out.append(" edits)");
        out
    }
}

/// What renaming did.
pub open spec fn rename_text(d: Json) -> Seq<char> {
    if d.u64_or("files_changed"@, 0) == 0 {
        "No references renamed"@
    } else {
        "Renamed "@ + decimal(d.u64_or("refs_changed"@, 0) as nat) + " refs across "@ + decimal(
            d.u64_or("files_changed"@, 0) as nat,
        ) + " files"@
    }
}

fn format_rename(data: &JsonValue) -> (r: String)
    ensures
        r@ == rename_text(data@),
{
    let files: u64 = data.u64_or("files_changed", 0);
    if files == 0 {
        return "No references renamed".to_string();
    }
    let mut out = "Renamed ".to_string();
    push_decimal(&mut out, data.u64_or("refs_changed", 0));
    out.append(" refs across ");
    push_decimal(&mut out, files);
    out.append(" files");
    out
}

/// What fixing did.
pub open spec fn fix_text(d: Json) -> Seq<char> {
    let n = d.u64_or("fixes_applied"@, 0);
    if n == 0 {
        "No fixes available"@
    } else {
        "Applied "@ + decimal(n as nat) + " fix(es) in "@ + join(
            match d.get_array("files"@) {
                Some(files) => strings_in(files),
                None => Seq::empty(),
            },
            ", "@,
        )
    }
}

fn format_fix(data: &JsonValue) -> (r: String)
    ensures
        r@ == fix_text(data@),
{
    let n: u64 = data.u64_or("fixes_applied", 0);
    if n == 0 {
        return "No fixes available".to_string();
    }
    let files = match data.get_array("files") {
        Some(f) => pick_strings(f),
        None => {
            let none: Vec<String> = Vec::new();
            assert(views(none@) =~= Seq::empty());
            none
        },
    };
    let mut out = "Applied ".to_string();
    push_decimal(&mut out, n);
    out.append(" fix(es) in ");
    out.append(join_strings(&files, ", ").as_str());
    out
}

/// `a` divided by `d`, to the nearest whole number, and to the even one of two that are equally
/// near.
pub open spec fn rounded_quotient(a: int, d: int) -> int {
    let q = a / d;
    let r = a % d;
    if 2 * r > d || (2 * r == d && q % 2 == 1) {
        q + 1
    } else {
        q
    }
}

/// `n` to 53 significant binary digits, when digits below `unit` are cut already.
pub open spec fn to_53_bits(n: int, unit: int, left: nat) -> int
    decreases left,
{
    if left == 0 || n / unit < 0x20_0000_0000_0000 {
        rounded_quotient(n, unit) * unit
    } else {
        to_53_bits(n, unit * 2, (left - 1) as nat)
    }
}

/// A number of bytes in tenths of a megabyte.
pub open spec fn megabyte_tenths(bytes: u64) -> int {
    rounded_quotient(10 * to_53_bits(bytes as int, 1, 11), 1_048_576)
}

/// A number of bytes in megabytes, to one decimal.
pub open spec fn megabytes_text(bytes: u64) -> Seq<char> {
    decimal((megabyte_tenths(bytes) / 10) as nat) + "."@ + decimal((megabyte_tenths(bytes) % 10) as nat)
}

fn divide_rounded(a: u128, d: u128) -> (r: u128)
    requires
        0 < d < 0x1_0000_0000,
        a < 0x1_0000_0000_0000_0000_0000_0000,
    ensures
        r == rounded_quotient(a as int, d as int),
        r <= a / d + 1,
{
    let q: u128 = a / d;
    let rest: u128 = a % d;
    if 2 * rest > d || (2 * rest == d && q % 2 == 1) {
        assert(q <= a) by (nonlinear_arith)
            requires
                q == a / d,
                d > 0,
        ;
        q + 1
    } else {
        q
    }
}

fn push_megabytes(out: &mut String, bytes: u64)
    ensures
        final(out)@ == old(out)@ + megabytes_text(bytes),
{
    let n: u128 = bytes as u128;
    let mut unit: u128 = 1;
    let mut left: u128 = 11;
    proof {
        reveal_with_fuel(pow2, 12);
    }
    while left > 0 && n / unit >= 0x20_0000_0000_0000
        invariant
            0 <= left <= 11,
            n == bytes,
            1 <= unit <= 2048,
            unit * pow2(left as nat) == 2048,
            to_53_bits(bytes as int, 1, 11) == to_53_bits(bytes as int, unit as int, left as nat),
        decreases left,
    {
        proof {
            assert(pow2(left as nat) == 2 * pow2((left - 1) as nat));
            pow2_positive((left - 1) as nat);
            let p = pow2((left - 1) as nat) as int;
            assert(unit * (2 * p) == (unit * 2) * p) by (nonlinear_arith);
            assert(unit * 2 <= 2048) by (nonlinear_arith)
                requires
                    (unit * 2) * p == 2048,
                    p >= 1,
            ;
        }
        unit = unit * 2;
        left = left - 1;
    }
    let q: u128 = divide_rounded(n, unit);
    proof {
        assert(n / unit <= n) by (nonlinear_arith)
            requires
                unit >= 1,
        ;
        assert(q * unit <= 0x1_0000_0000_0000_0001 * 2048) by (nonlinear_arith)
            requires
                q <= 0x1_0000_0000_0000_0001,
                unit <= 2048,
        ;
    }
    let near: u128 = q * unit;
    let tenths: u128 = divide_rounded(10 * near, 1_048_576);
    proof {
        assert(near == to_53_bits(bytes as int, 1, 11));
        assert(tenths / 10 <= 0xffff_ffff_ffff_ffff) by (nonlinear_arith)
            requires
                tenths <= (10 * near) / 1_048_576 + 1,
                near <= 0x1_0000_0000_0000_0001 * 2048,
        ;
    }
    push_decimal(out, (tenths / 10) as u64);
    out.append(".");
    push_decimal(out, (tenths % 10) as u64);
    assert(final(out)@ =~= old(out)@ + megabytes_text(bytes));
}

/// Two to the power of `n`.
pub open spec fn pow2(n: nat) -> nat
    decreases n,
{
    if n == 0 {
        1
    } else {
        2 * pow2((n - 1) as nat)
    }
}

proof fn pow2_positive(n: nat)
    ensures
        pow2(n) >= 1,
    decreases n,
{
    if n > 0 {
        pow2_positive((n - 1) as nat);
    }
}

/// What cleaning the managed servers did.
pub open spec fn clean_text(bytes: u64) -> Seq<char> {
    if bytes == 0 {
        "nothing to clean"@
    } else {
        "cleaned ~/.krait/servers/ ("@ + megabytes_text(bytes) + " MB freed)"@
    }
}

/// Says what cleaning the managed servers did.
pub fn format_clean(bytes: u64) -> (r: String)
    ensures
        r@ == clean_text(bytes),
{
    if bytes == 0 {
        return "nothing to clean".to_string();
    }
    let mut out = "cleaned ~/.krait/servers/ (".to_string();
    push_megabytes(&mut out, bytes);
    out.append(" MB freed)");
    out
}

/// One running server.
pub open spec fn running_line(s: Json) -> Seq<char> {
    let status = s.str_or("status"@, "?"@);
    let uptime = s.u64_or("uptime_secs"@, 0);
    pad_right(s.str_or("language"@, "?"@), 12) + "  "@ + pad_right(s.str_or("server"@, "?"@), 24) + "  "@ + decimal(
        s.u64_or("attached_folders"@, 0) as nat,
    ) + "/"@ + decimal(s.u64_or("total_folders"@, 0) as nat) + " folders"@ + (if status == "ready"@ {
        Seq::empty()
    } else {
        " ["@ + status + "]"@
    }) + (if uptime > 0 {
        " uptime="@ + duration_text(uptime)
    } else {
        Seq::empty()
    }) + "\n"@
}

/// Running servers, one on a line.
pub open spec fn running_lines(s: Seq<Json>) -> Seq<char>
    decreases s.len(),
{
    if s.len() == 0 {
        Seq::empty()
    } else {
        running_lines(s.drop_last()) + running_line(s.last())
    }
}

/// The running servers.
pub open spec fn running_text(s: Seq<Json>) -> Seq<char> {
    if s.len() == 0 {
        "no servers running"@
    } else {
        trim_end(running_lines(s))
    }
}

fn format_running(s: &JsonValue) -> (r: String)
    ensures
        r@ == running_line(s@),
{
    let status = s.str_or("status", "?");
    let uptime: u64 = s.u64_or("uptime_secs", 0);
    let state_tag = if str_eq(status.as_str(), "ready") {
        String::new()
    } else {
        bracketed(status.as_str())
    };
    let uptime_part = if uptime > 0 {
        let mut u = " uptime=".to_string();
        u.append(format_duration(uptime).as_str());
        u
    } else {
        String::new()
    };
    let mut line = padded_right(s.str_or("language", "?").as_str(), 12);
    line.append("  ");
    line.append(padded_right(s.str_or("server", "?").as_str(), 24).as_str());
    line.append("  ");
    line.append(decimal_of(s.u64_or("attached_folders", 0)).as_str());
    line.append("/");
    line.append(decimal_of(s.u64_or("total_folders", 0)).as_str());
    line.append(" folders");
    line.append(state_tag.as_str());
    line.append(uptime_part.as_str());
    line.append("\n");
    line
}

/// A state in brackets.
fn bracketed(status: &str) -> (r: String)
    ensures
        r@ == " ["@ + status@ + "]"@,
{
    let mut t = " [".to_string();
    t.append(status);
    t.append("]");
    t
}

fn format_daemon_server_status(servers: &Vec<JsonValue>) -> (r: String)
    ensures
        r@ == running_text(jsons(servers@)),
{
    let ghost all = jsons(servers@);
    if servers.len() == 0 {
        return "no servers running".to_string();
    }
    let mut out = String::new();
    let mut i: usize = 0;
    assert(all.take(0) =~= Seq::empty());
    while i < servers.len()
        invariant
            0 <= i <= servers@.len(),
            all == jsons(servers@),
            out@ == running_lines(all.take(i as int)),
        decreases servers@.len() - i,
    {
        let s = &servers[i];
        assert(all.take(i + 1).drop_last() =~= all.take(i as int));
        assert(all.take(i + 1).last() == s@);
        out.append(format_running(s).as_str());
        i = i + 1;
    }
    assert(all.take(i as int) =~= all);
    str_trim_end(out.as_str())
}

// ── All answers ─────────────────────────────────────────────────────────────

/// The data of an answer: which kind it is shows in its fields, and the first kind that fits counts.
pub open spec fn data_text(d: Json) -> Seq<char> {
    if let Some(daemon) = d.get("daemon"@) {
        status_text(d, daemon)
    } else if d.get("files_indexed"@) is Some {
        init_text(d)
    } else if d.get("content"@) is Some && d.get("path"@) is Some {
        content_text(d)
    } else if d.is_true("dir"@) {
        directory_text(d)
    } else if let Some(diags) = d.get_array("diagnostics"@) {
        check_text(d, diags)
    } else if d.get("lines_before"@) is Some {
        replace_line(d)
    } else if d.get("hover_content"@) is Some {
        hover_text(d)
    } else if d.get("edits_applied"@) is Some {
        format_text(d)
    } else if d.get("files_changed"@) is Some {
        rename_text(d)
    } else if d.get("fixes_applied"@) is Some {
        fix_text(d)
    } else {
        server_text(d)
    }
}

/// The data of an answer about servers, of an insertion, of a list, or of anything else.
pub open spec fn server_text(d: Json) -> Seq<char> {
    if let Some(Json::Str(lang)) = d.get("restarted"@) {
        "restarted "@ + lang + " ("@ + d.str_or("server_name"@, "?"@) + ")"@
    } else if d.is_true("cleaned"@) {
        clean_text(d.u64_or("bytes_freed"@, 0))
    } else if let Some(Json::Str(binary)) = d.get("installed"@) {
        "installed "@ + binary + " → "@ + d.str_or("path"@, "?"@)
    } else if let Some(servers) = d.get_array("servers"@) {
        running_text(servers)
    } else if d.get("inserted_at"@) is Some {
        insert_line(d, d.str_or("operation"@, "after"@))
    } else if let Some(items) = d.as_array() {
        list_text(items)
    } else {
        json_text(d)
    }
}

/// An answer in few words.
pub open spec fn shown(answer: Answer) -> Seq<char> {
    match answer.error {
        Some(e) => failure_text(e),
        None => match answer.data {
            Some(d) => data_text(d),
            None => Seq::empty(),
        },
    }
}

fn get_str<'a>(data: &'a JsonValue, key: &str) -> (r: Option<&'a str>)
    ensures
        match r {
            Some(s) => data@.get(key@) == Some(Json::Str(s@)),
            None => !(data@.get(key@) is Some && data@.get(key@)->0 is Str),
        },
{
    match data.get(key) {
        Some(v) => v.as_str(),
        None => None,
    }
}

fn format_server(data: &JsonValue) -> (r: String)
    ensures
        r@ == server_text(data@),
{
    if let Some(lang) = get_str(data, "restarted") {
        let mut out = "restarted ".to_string();
        out.append(lang);
        out.append(" (");
        out.append(data.str_or("server_name", "?").as_str());
        out.append(")");
        return out;
    }
    if data.is_true("cleaned") {
        return format_clean(data.u64_or("bytes_freed", 0));
    }
    if let Some(binary) = get_str(data, "installed") {
        let mut out = "installed ".to_string();
        out.append(binary);
        out.append(" → ");
        out.append(data.str_or("path", "?").as_str());
        return out;
    }
    if let Some(servers) = data.get_array("servers") {
        return format_daemon_server_status(servers);
    }
    if data.has("inserted_at") {
        return format_insert(data, data.str_or("operation", "after").as_str());
    }
    if let Some(items) = data.as_array() {
        return format_list(items);
    }
    to_json_text(data)
}

/// Formats a response as compact output.
pub fn format(response: &Response) -> (r: String)
    ensures
        r@ == shown(response@),
{
    if let Some(e) = &response.error {
        let mut out = "error: ".to_string();
        out.append(e.message.as_str());
        out.append(" (");
        out.append(e.code.as_str());
        out.append(")");
        if let Some(a) = &e.advice {
            out.append("\nadvice: ");
            out.append(a.as_str());
        }
        return out;
    }
    let data = match &response.data {
        Some(d) => d,
        None => {
            return String::new();
        },
    };
    if let Some(daemon) = data.get("daemon") {
        return format_status(data, daemon);
    }
    if data.has("files_indexed") {
        return format_init(data);
    }
    if data.has("content") && data.has("path") {
        return format_file_content(data);
    }
    if data.is_true("dir") {
        return format_dir_symbols(data);
    }
    if let Some(diags) = data.get_array("diagnostics") {
        return format_check(data, diags);
    }
    if data.has("lines_before") {
        return format_replace(data);
    }
    if data.has("hover_content") {
        return format_hover(data);
    }
    if data.has("edits_applied") {
        return format_format(data);
    }
    if data.has("files_changed") {
        return format_rename(data);
    }
    if data.has("fixes_applied") {
        return format_fix(data);
    }
    format_server(data)
}

/// Each diagnostic is shown on a line of its own, in order.
pub proof fn all_diagnostics_are_shown(s: Seq<Json>)
    ensures
        diagnostic_lines(s) == s.map_values(|d: Json| diagnostic_line(d)).flatten_alt(),
    decreases s.len(),
{
    let f = |d: Json| diagnostic_line(d);
    let all = s.map_values(f);
    if s.len() > 0 {
        all_diagnostics_are_shown(s.drop_last());
        assert(all.drop_last() =~= s.drop_last().map_values(f));
        assert(all.last() == f(s.last()));
        assert(diagnostic_lines(s) =~= all.flatten_alt());
    } else {
        assert(all.flatten_alt() =~= Seq::<char>::empty());
    }
}

/// Each place that names its file is shown, in order.
pub proof fn all_places_are_shown(items: Seq<Json>)
    ensures
        place_lines(items) == items.map_values(|x: Json| place_text(x)).flatten_alt(),
    decreases items.len(),
{
    let f = |x: Json| place_text(x);
    let all = items.map_values(f);
    if items.len() > 0 {
        all_places_are_shown(items.drop_last());
        assert(all.drop_last() =~= items.drop_last().map_values(f));
        assert(all.last() == f(items.last()));
        assert(place_lines(items) =~= all.flatten_alt());
    } else {
        assert(all.flatten_alt() =~= Seq::<char>::empty());
    }
}

/// Each use is shown on a line of its own, in order.
pub proof fn all_uses_are_shown(items: Seq<Json>)
    ensures
        enriched_lines(items) == items.map_values(|x: Json| enriched_line(x)).flatten_alt(),
    decreases items.len(),
{
    let f = |x: Json| enriched_line(x);
    let all = items.map_values(f);
    if items.len() > 0 {
        all_uses_are_shown(items.drop_last());
        assert(all.drop_last() =~= items.drop_last().map_values(f));
        assert(all.last() == f(items.last()));
        assert(enriched_lines(items) =~= all.flatten_alt());
    } else {
        assert(all.flatten_alt() =~= Seq::<char>::empty());
    }
}

/// Each server of a status is shown, in order.
pub proof fn all_servers_are_shown(s: Seq<Json>)
    ensures
        server_lines(s) == s.map_values(|x: Json| server_line(x)).flatten_alt(),
    decreases s.len(),
{
    let f = |x: Json| server_line(x);
    let all = s.map_values(f);
    if s.len() > 0 {
        all_servers_are_shown(s.drop_last());
        assert(all.drop_last() =~= s.drop_last().map_values(f));
        assert(all.last() == f(s.last()));
        assert(server_lines(s) =~= all.flatten_alt());
    } else {
        assert(all.flatten_alt() =~= Seq::<char>::empty());
    }
}

/// Each running server is shown on a line of its own, in order.
pub proof fn all_running_servers_are_shown(s: Seq<Json>)
    ensures
        running_lines(s) == s.map_values(|x: Json| running_line(x)).flatten_alt(),
    decreases s.len(),
{
    let f = |x: Json| running_line(x);
    let all = s.map_values(f);
    if s.len() > 0 {
        all_running_servers_are_shown(s.drop_last());
        assert(all.drop_last() =~= s.drop_last().map_values(f));
        assert(all.last() == f(s.last()));
        assert(running_lines(s) =~= all.flatten_alt());
    } else {
        assert(all.flatten_alt() =~= Seq::<char>::empty());
    }
}

/// A diagnostic is shown with its severity, its place, its code where it has one, and its message.
pub proof fn diagnostic_shows_what_it_says(
    d: Json,
    severity: Seq<char>,
    path: Seq<char>,
    line: u64,
    col: u64,
    code: Option<Seq<char>>,
    message: Seq<char>,
)
    requires
        d.get("severity"@) == Some(Json::Str(severity)),
        d.get("path"@) == Some(Json::Str(path)),
        d.get("line"@) == Some(Json::Int(line as int)),
        d.get("col"@) == Some(Json::Int(col as int)),
        d.get("message"@) == Some(Json::Str(message)),
        d.get("code"@) == match code {
            Some(c) => Some(Json::Str(c)),
            None => None,
        },
    ensures
        ({
            let place = path + ":"@ + decimal(line as nat) + ":"@ + decimal(col as nat);
            let front = pad_right(severity, 5) + " "@ + place + " "@;
            match code {
                Some(c) => c.len() > 0 ==> diagnostic_line(d) == front + c + " "@ + message + "\n"@,
                None => diagnostic_line(d) == front + message + "\n"@,
            }
        }),
{
    reveal_strlit("");
    let place = path + ":"@ + decimal(line as nat) + ":"@ + decimal(col as nat);
    let front = pad_right(severity, 5) + " "@ + place + " "@;
    match code {
        Some(c) => {
            if c.len() > 0 {
                assert(diagnostic_line(d) =~= front + c + " "@ + message + "\n"@);
            }
        },
        None => {
            assert(diagnostic_line(d) =~= front + message + "\n"@);
        },
    }
}

/// A use is shown with its place, the symbol that it stands in, and what stands there.
pub proof fn use_shows_what_it_says(
    x: Json,
    path: Seq<char>,
    line: u64,
    preview: Seq<char>,
    inside: Json,
    name: Seq<char>,
    kind: Seq<char>,
    at: u64,
)
    requires
        x.get("path"@) == Some(Json::Str(path)),
        x.get("line"@) == Some(Json::Int(line as int)),
        x.get("preview"@) == Some(Json::Str(preview)),
        x.get("containing_symbol"@) == Some(inside),
        inside.get("name"@) == Some(Json::Str(name)),
        inside.get("kind"@) == Some(Json::Str(kind)),
        inside.get("line"@) == Some(Json::Int(at as int)),
    ensures
        x.get("is_definition"@) != Some(Json::Bool(true)) ==> enriched_line(x) == path + ":"@ + decimal(line as nat)
            + "  [in "@ + name + " ("@ + kind + ":"@ + decimal(at as nat) + ")]"@ + "  "@ + trim(preview) + "\n"@,
        x.get("is_definition"@) == Some(Json::Bool(true)) ==> enriched_line(x) == path + ":"@ + decimal(line as nat)
            + "  [definition]  "@ + trim(preview) + "\n"@,
{
    if x.get("is_definition"@) == Some(Json::Bool(true)) {
        assert(enriched_line(x) =~= path + ":"@ + decimal(line as nat) + "  [definition]  "@ + trim(preview) + "\n"@);
    } else {
        assert(enriched_line(x) =~= path + ":"@ + decimal(line as nat) + "  [in "@ + name + " ("@ + kind + ":"@
            + decimal(at as nat) + ")]"@ + "  "@ + trim(preview) + "\n"@);
    }
}

/// A body is shown with all its lines, each behind its number.
pub proof fn whole_body_is_shown(ls: Seq<Seq<char>>, first: u64, n: int)
    requires
        0 <= n <= ls.len(),
        first + ls.len() <= u64::MAX,
    ensures
        body_text(ls, first, n) == Seq::new(
            n as nat,
            |i: int| "  "@ + pad_left(decimal((first + i) as nat), 4) + "\t"@ + ls[i] + "\n"@,
        ).flatten_alt(),
    decreases n,
{
    let f = |i: int| "  "@ + pad_left(decimal((first + i) as nat), 4) + "\t"@ + ls[i] + "\n"@;
    let all = Seq::new(n as nat, f);
    if n > 0 {
        whole_body_is_shown(ls, first, n - 1);
        assert(all.drop_last() =~= Seq::new((n - 1) as nat, f));
        assert(all.last() == f(n - 1));
        assert(first.wrapping_add((n - 1) as u64) == first + n - 1);
        assert(body_text(ls, first, n) =~= all.flatten_alt());
    } else {
        assert(all.flatten_alt() =~= Seq::<char>::empty());
    }
}

/// A place is shown with its file, its line, its kind, what stands there and its body, each line of it behind
/// its number.
pub proof fn place_shows_what_it_says(
    x: Json,
    path: Seq<char>,
    line: u64,
    kind: Seq<char>,
    preview: Seq<char>,
    body: Option<Seq<char>>,
)
    requires
        x.get("path"@) == Some(Json::Str(path)),
        x.get("line"@) == Some(Json::Int(line as int)),
        x.get("kind"@) == Some(Json::Str(kind)),
        x.get("preview"@) == Some(Json::Str(preview)),
        x.get("is_definition"@) is None,
        x.get("body"@) == match body {
            Some(b) => Some(Json::Str(b)),
            None => None,
        },
        kind.len() > 0,
        body matches Some(b) ==> line + lines(b).len() <= u64::MAX,
    ensures
        ({
            let head = path + ":"@ + decimal(line as nat) + " "@ + kind + " "@ + preview + "\n"@;
            match body {
                Some(b) => place_text(x) == head + Seq::new(
                    lines(b).len(),
                    |i: int| "  "@ + pad_left(decimal((line + i) as nat), 4) + "\t"@ + lines(b)[i] + "\n"@,
                ).flatten_alt() + "---\n"@,
                None => place_text(x) == head,
            }
        }),
{
    reveal_strlit("");
    let head = path + ":"@ + decimal(line as nat) + " "@ + kind + " "@ + preview + "\n"@;
    assert(place_head(x, path) =~= head);
    match body {
        Some(b) => {
            whole_body_is_shown(lines(b), line, lines(b).len() as int);
            let shown = Seq::new(
                lines(b).len(),
                |i: int| "  "@ + pad_left(decimal((line + i) as nat), 4) + "\t"@ + lines(b)[i] + "\n"@,
            ).flatten_alt();
            assert(place_text(x) =~= head + shown + "---\n"@);
        },
        None => {
            assert(place_text(x) =~= head);
        },
    }
}

/// The text of a tree is that of its items in order: for each its kind and name, and below it, further in, the
/// items inside it.
pub proof fn tree_shows_each_item(items: Seq<Json>, item: Json, prefix: Seq<char>)
    ensures
        tree_text(items.push(item), prefix) == tree_text(items, prefix) + (prefix + item.str_or("kind"@, "?"@) + " "@
            + item.str_or("name"@, "?"@) + "\n"@) + match item.get_array("children"@) {
            Some(children) => tree_text(children, prefix + "  "@),
            None => Seq::empty(),
        },
        tree_text(Seq::empty(), prefix) == Seq::<char>::empty(),
{
    let all = items.push(item);
    assert(all.drop_last() =~= items);
    assert(all.last() == item);
    assert(tree_text(all, prefix) =~= tree_text(items, prefix) + (prefix + item.str_or("kind"@, "?"@) + " "@
        + item.str_or("name"@, "?"@) + "\n"@) + match item.get_array("children"@) {
        Some(children) => tree_text(children, prefix + "  "@),
        None => Seq::empty(),
    });
}

/// A duration is shown in seconds below a minute, in minutes below an hour, and else in hours and the minutes
/// left over, where there are any.
pub proof fn duration_is_shown_in_its_units(hours: nat, minutes: nat, seconds: nat)
    requires
        minutes < 60,
        seconds < 60,
        hours * 3600 + minutes * 60 + seconds <= u64::MAX,
    ensures
        ({
            let text = duration_text((hours * 3600 + minutes * 60 + seconds) as u64);
            &&& hours == 0 && minutes == 0 ==> text == decimal(seconds) + "s"@
            &&& hours == 0 && minutes > 0 ==> text == decimal(minutes) + "m"@
            &&& hours > 0 && minutes == 0 ==> text == decimal(hours) + "h"@
            &&& hours > 0 && minutes > 0 ==> text == decimal(hours) + "h"@ + decimal(minutes) + "m"@
        }),
{
    let all = hours * 3600 + minutes * 60 + seconds;
    let rest = minutes * 60 + seconds;
    vstd::arithmetic::div_mod::lemma_fundamental_div_mod_converse(all as int, 3600, hours as int, rest as int);
    vstd::arithmetic::div_mod::lemma_fundamental_div_mod_converse(rest as int, 60, minutes as int, seconds as int);
}

/// A failure shows its message, its code and, on a line of its own, the advice where there is some.
pub proof fn failure_shows_what_it_says(answer: Answer, e: Failure)
    requires
        answer.error == Some(e),
    ensures
        e.advice is None ==> shown(answer) == "error: "@ + e.message + " ("@ + e.code + ")"@,
        e.advice matches Some(a) ==> shown(answer) == "error: "@ + e.message + " ("@ + e.code + ")"@ + "\nadvice: "@ + a,
{
}

/// How a check ends: how many diagnostics there are, and how many of them are errors and warnings.
pub proof fn check_ends_with_its_counts(d: Json, diags: Seq<Json>, total: u64, errors: u64, warnings: u64)
    requires
        d.get("total"@) == Some(Json::Int(total as int)),
        d.get("errors"@) == Some(Json::Int(errors as int)),
        d.get("warnings"@) == Some(Json::Int(warnings as int)),
        diags.len() > 0,
    ensures
        ({
            let counted = |n: u64, one: Seq<char>, many: Seq<char>|
                decimal(n as nat) + if n == 1 {
                    one
                } else {
                    many
                };
            let e = counted(errors, " error"@, " errors"@);
            let w = counted(warnings, " warning"@, " warnings"@);
            check_text(d, diags) == diags.map_values(|x: Json| diagnostic_line(x)).flatten_alt() + (counted(
                total,
                " diagnostic"@,
                " diagnostics"@,
            ) + if errors > 0 && warnings > 0 {
                " ("@ + e + ", "@ + w + ")"@
            } else if errors > 0 {
                " ("@ + e + ")"@
            } else if warnings > 0 {
                " ("@ + w + ")"@
            } else {
                Seq::empty()
            })
        }),
{
    all_diagnostics_are_shown(diags);
    let counted = |n: u64, one: Seq<char>, many: Seq<char>|
        decimal(n as nat) + if n == 1 {
            one
        } else {
            many
        };
    reveal_strlit("");
    reveal_strlit(" diagnostic");
    reveal_strlit(" error");
    reveal_strlit(" errors");
    reveal_strlit(" warning");
    reveal_strlit(" warnings");
    reveal_strlit(" diagnostics");
    reveal_strlit(" ");
    reveal_strlit("diagnostic");
    reveal_strlit("s");
    reveal_strlit("error");
    reveal_strlit("warning");
    assert(count_text(total, "diagnostic"@) =~= counted(total, " diagnostic"@, " diagnostics"@));
    assert(count_text(errors, "error"@) =~= counted(errors, " error"@, " errors"@));
    assert(count_text(warnings, "warning"@) =~= counted(warnings, " warning"@, " warnings"@));
}

/// Symbols that were found are shown one after the other: for each its file, its line, its kind, what stands there,
/// and its body where there is one.
pub proof fn found_symbols_are_shown(s: Seq<Found>)
    requires
        forall|i: int|
            0 <= i < s.len() ==> (#[trigger] s[i]).kind.len() > 0 && (s[i].body matches Some(b) ==> s[i].line
                + lines(b).len() <= u64::MAX),
    ensures
        s.len() == 0 ==> data_text(found_list(s)) == "no results"@,
        s.len() > 0 ==> data_text(found_list(s)) == trim_end(
            s.map_values(
                |f: Found|
                    {
                        let head = f.path + ":"@ + decimal(f.line as nat) + " "@ + f.kind + " "@ + f.preview + "\n"@;
                        match f.body {
                            Some(b) => head + Seq::new(
                                lines(b).len(),
                                |i: int|
                                    "  "@ + pad_left(decimal((f.line + i) as nat), 4) + "\t"@ + lines(b)[i] + "\n"@,
                            ).flatten_alt() + "---\n"@,
                            None => head,
                        }
                    },
            ).flatten_alt(),
        ),
{
    let items = found_list(s)->Arr_0;
    let show = |f: Found|
        {
            let head = f.path + ":"@ + decimal(f.line as nat) + " "@ + f.kind + " "@ + f.preview + "\n"@;
            match f.body {
                Some(b) => head + Seq::new(
                    lines(b).len(),
                    |i: int| "  "@ + pad_left(decimal((f.line + i) as nat), 4) + "\t"@ + lines(b)[i] + "\n"@,
                ).flatten_alt() + "---\n"@,
                None => head,
            }
        };
    assert(data_text(found_list(s)) == list_text(items));
    assert forall|i: int| 0 <= i < s.len() implies place_text(#[trigger] items[i]) == show(s[i]) && items[i].get(
        "containing_symbol"@,
    ) is None && items[i].get("name"@) is None by {
        value_tells_of_its_symbol(s[i]);
        place_shows_what_it_says(items[i], s[i].path, s[i].line as u64, s[i].kind, s[i].preview, s[i].body);
    }
    if s.len() > 0 {
        assert(items[0].get("name"@) is None);
        all_places_are_shown(items);
        assert(items.map_values(|x: Json| place_text(x)) =~= s.map_values(show));
    }
}

/// Uses of which none is known to stand in a symbol are shown with their place, and the definition is marked.
pub proof fn plain_uses_are_shown(s: Seq<Reference>)
    requires
        s.len() > 0,
        forall|i: int| 0 <= i < s.len() ==> (#[trigger] s[i]).containing_symbol is None,
    ensures
        data_text(reference_list(s)) == trim_end(
            s.map_values(
                |r: Reference|
                    r.path + ":"@ + decimal(r.line as nat) + " "@ + r.preview + (if r.is_definition {
                        " [definition]"@
                    } else {
                        Seq::empty()
                    }) + "\n"@,
            ).flatten_alt(),
        ),
{
    let items = reference_list(s)->Arr_0;
    let show = |r: Reference|
        r.path + ":"@ + decimal(r.line as nat) + " "@ + r.preview + (if r.is_definition {
            " [definition]"@
        } else {
            Seq::empty()
        }) + "\n"@;
    reveal_strlit("");
    assert(data_text(reference_list(s)) == list_text(items));
    assert forall|i: int| 0 <= i < s.len() implies place_text(#[trigger] items[i]) == show(s[i]) && items[i].get(
        "containing_symbol"@,
    ) is None && items[i].get("name"@) is None by {
        value_tells_of_its_use(s[i]);
        assert(place_text(items[i]) =~= show(s[i]));
    }
    assert(items[0].get("name"@) is None);
    all_places_are_shown(items);
    assert(items.map_values(|x: Json| place_text(x)) =~= s.map_values(show));
}

/// Uses of which one is known to stand in a symbol are shown with their place and that symbol, and the definition
/// is marked.
pub proof fn uses_in_symbols_are_shown(s: Seq<Reference>, k: int)
    requires
        0 <= k < s.len(),
        s[k].containing_symbol is Some,
    ensures
        data_text(reference_list(s)) == trim_end(
            s.map_values(
                |r: Reference|
                    r.path + ":"@ + decimal(r.line as nat) + (if r.is_definition {
                        "  [definition]  "@
                    } else {
                        (match r.containing_symbol {
                            Some(c) => "  [in "@ + c.name + " ("@ + c.kind + ":"@ + decimal(c.line as nat) + ")]"@,
                            None => Seq::empty(),
                        }) + "  "@
                    }) + trim(r.preview) + "\n"@,
            ).flatten_alt(),
        ),
{
    let items = reference_list(s)->Arr_0;
    let show = |r: Reference|
        r.path + ":"@ + decimal(r.line as nat) + (if r.is_definition {
            "  [definition]  "@
        } else {
            (match r.containing_symbol {
                Some(c) => "  [in "@ + c.name + " ("@ + c.kind + ":"@ + decimal(c.line as nat) + ")]"@,
                None => Seq::empty(),
            }) + "  "@
        }) + trim(r.preview) + "\n"@;
    assert(data_text(reference_list(s)) == list_text(items));
    assert forall|i: int| 0 <= i < s.len() implies enriched_line(#[trigger] items[i]) == show(s[i]) && items[i].get(
        "name"@,
    ) is None by {
        value_tells_of_its_use(s[i]);
        assert(enriched_line(items[i]) =~= show(s[i]));
    }
    value_tells_of_its_use(s[k]);
    assert(items[k].get("containing_symbol"@) is Some);
    value_tells_of_its_use(s[0]);
    assert(items[0].get("path"@) is Some);
    all_uses_are_shown(items);
    assert(items.map_values(|x: Json| enriched_line(x)) =~= s.map_values(show));
}

/// Bytes are told to the nearest tenth of a megabyte, and to the even one of two that are equally near, as long as
/// they are few enough to be told apart in 53 binary digits.
pub proof fn megabytes_are_rounded(bytes: u64)
    requires
        bytes < 0x20_0000_0000_0000,
    ensures
        ({
            let off = 10 * bytes - megabyte_tenths(bytes) * 1_048_576;
            &&& -524_288 <= off <= 524_288
            &&& off == 524_288 || off == -524_288 ==> megabyte_tenths(bytes) % 2 == 0
        }),
{
    assert(to_53_bits(bytes as int, 1, 11) == bytes);
    let a = 10 * bytes;
    vstd::arithmetic::div_mod::lemma_fundamental_div_mod(a as int, 1_048_576);
}

} // verus!
