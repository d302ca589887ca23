//! Results as the JSON values that are sent to the client.

use crate::commands::find::{Container, ContainingSymbol, Found, Reference, ReferenceMatch, SymbolMatch};
use crate::commands::list::{entries, Entry, SymbolEntry};
use crate::json::{entries_view, field, first_entry_is_read, jsons, key_index, Json, JsonValue};
use crate::lsp::pool::{ServerStatus, Status};
use crate::sorting::seen;
use vstd::prelude::*;

verus! {

/// The value of a symbol; a body is shown where there is one.
pub open spec fn found_json(f: Found) -> Json {
    let fields = seq![
        ("path"@, Json::Str(f.path)),
        ("line"@, Json::Int(f.line as int)),
        ("kind"@, Json::Str(f.kind)),
        ("preview"@, Json::Str(f.preview)),
    ];
    Json::Obj(
        match f.body {
            Some(b) => fields.push(("body"@, Json::Str(b))),
            None => fields,
        },
    )
}

/// The value of a containing symbol.
pub open spec fn container_json(c: Container) -> Json {
    Json::Obj(
        seq![
            ("name"@, Json::Str(c.name)),
            ("kind"@, Json::Str(c.kind)),
            ("line"@, Json::Int(c.line as int)),
        ],
    )
}

/// The value of a reference; a containing symbol is shown where there is one.
pub open spec fn reference_json(r: Reference) -> Json {
    let fields = seq![
        ("path"@, Json::Str(r.path)),
        ("line"@, Json::Int(r.line as int)),
        ("preview"@, Json::Str(r.preview)),
        ("is_definition"@, Json::Bool(r.is_definition)),
    ];
    Json::Obj(
        match r.containing_symbol {
            Some(c) => fields.push(("containing_symbol"@, container_json(c))),
            None => fields,
        },
    )
}

/// The value of an outline entry, with those of its children.
pub open spec fn entry_json(e: Entry) -> Json
    decreases e,
{
    Json::Obj(
        seq![
            ("name"@, Json::Str(e.name)),
            ("kind"@, Json::Str(e.kind)),
            ("line"@, Json::Int(e.line as int)),
            ("end_line"@, Json::Int(e.end_line as int)),
            (
                "children"@,
                Json::Arr(
                    Seq::new(
                        e.children.len(),
                        |i: int|
                            if 0 <= i < e.children.len() {
                                entry_json(e.children[i])
                            } else {
                                arbitrary()
                            },
                    ),
                ),
            ),
        ],
    )
}

/// The value of a server's status.
pub open spec fn status_json(s: Status) -> Json {
    Json::Obj(
        seq![
            ("language"@, Json::Str(s.language)),
            ("server"@, Json::Str(s.server_name)),
            ("status"@, Json::Str(s.status)),
            ("uptime_secs"@, Json::Int(s.uptime_secs as int)),
            ("open_files"@, Json::Int(s.open_files as int)),
            ("attached_folders"@, Json::Int(s.attached_folders as int)),
            ("total_folders"@, Json::Int(s.total_folders as int)),
        ],
    )
}

/// The value of a list of symbols.
pub open spec fn found_list(s: Seq<Found>) -> Json {
    Json::Arr(Seq::new(s.len(), |i: int| found_json(s[i])))
}

/// The value of a list of references.
pub open spec fn reference_list(s: Seq<Reference>) -> Json {
    Json::Arr(Seq::new(s.len(), |i: int| reference_json(s[i])))
}

/// The value of an outline.
pub open spec fn entry_list(s: Seq<Entry>) -> Json {
    Json::Arr(Seq::new(s.len(), |i: int| entry_json(s[i])))
}

/// The value of a list of statuses.
pub open spec fn status_list(s: Seq<Status>) -> Json {
    Json::Arr(Seq::new(s.len(), |i: int| status_json(s[i])))
}

fn symbol_value(m: &SymbolMatch) -> (r: JsonValue)
    ensures
        r@ == found_json(m@),
{
    let mut fields = vec![
        field("path", JsonValue::String(m.path.clone())),
        field("line", JsonValue::UInt(m.line as u64)),
        field("kind", JsonValue::String(m.kind.clone())),
        field("preview", JsonValue::String(m.preview.clone())),
    ];
    if let Some(b) = &m.body {
        fields.push(field("body", JsonValue::String(b.clone())));
    }
    assert(entries_view(fields@) =~= found_json(m@)->Obj_0);
    JsonValue::object(fields)
}

fn container_value(c: &ContainingSymbol) -> (r: JsonValue)
    ensures
        r@ == container_json(c@),
{
    let fields = vec![
        field("name", JsonValue::String(c.name.clone())),
        field("kind", JsonValue::String(c.kind.clone())),
        field("line", JsonValue::UInt(c.line as u64)),
    ];
    assert(entries_view(fields@) =~= container_json(c@)->Obj_0);
    JsonValue::object(fields)
}

fn reference_value(m: &ReferenceMatch) -> (r: JsonValue)
    ensures
        r@ == reference_json(m@),
{
    let mut fields = vec![
        field("path", JsonValue::String(m.path.clone())),
        field("line", JsonValue::UInt(m.line as u64)),
        field("preview", JsonValue::String(m.preview.clone())),
        field("is_definition", JsonValue::Bool(m.is_definition)),
    ];
    if let Some(c) = &m.containing_symbol {
        fields.push(field("containing_symbol", container_value(c)));
    }
    assert(entries_view(fields@) =~= reference_json(m@)->Obj_0);
    JsonValue::object(fields)
}

fn entry_value(e: &SymbolEntry) -> (r: JsonValue)
    ensures
        r@ == entry_json(e@),
    decreases e,
{
    proof {
        e.children_view();
    }
    let mut children: Vec<JsonValue> = Vec::new();
    let mut i: usize = 0;
    while i < e.children.len()
        invariant
            0 <= i <= e.children@.len(),
            children@.len() == i,
            forall|k: int| 0 <= k < i ==> (#[trigger] children@[k])@ == entry_json(e.children@[k]@),
        decreases e.children@.len() - i,
    {
        assert(decreases_to!(*e => e.children));
        assert(decreases_to!(e.children => e.children@[i as int]));
        children.push(entry_value(&e.children[i]));
        i = i + 1;
    }
    let ghost want = entry_json(e@);
    assert(jsons(children@) =~= want->Obj_0[4].1->Arr_0);
    let fields = vec![
        field("name", JsonValue::String(e.name.clone())),
        field("kind", JsonValue::String(e.kind.clone())),
        field("line", JsonValue::UInt(e.line as u64)),
        field("end_line", JsonValue::UInt(e.end_line as u64)),
        field("children", JsonValue::array(children)),
    ];
    assert(entries_view(fields@) =~= want->Obj_0);
    JsonValue::object(fields)
}

fn status_value(s: &ServerStatus) -> (r: JsonValue)
    ensures
        r@ == status_json(s@),
{
    let fields = vec![
        field("language", JsonValue::String(s.language.clone())),
        field("server", JsonValue::String(s.server_name.clone())),
        field("status", JsonValue::str(s.status)),
        field("uptime_secs", JsonValue::UInt(s.uptime_secs)),
        field("open_files", JsonValue::number(s.open_files)),
        field("attached_folders", JsonValue::number(s.attached_folders)),
        field("total_folders", JsonValue::number(s.total_folders)),
    ];
    assert(entries_view(fields@) =~= status_json(s@)->Obj_0);
    JsonValue::object(fields)
}

/// The value of a list of symbols.
pub fn symbols_value(symbols: &[SymbolMatch]) -> (r: JsonValue)
    ensures
        r@ == found_list(seen(symbols@)),
{
    let mut out: Vec<JsonValue> = Vec::new();
    let mut i: usize = 0;
    while i < symbols.len()
        invariant
            0 <= i <= symbols@.len(),
            out@.len() == i,
            forall|k: int| 0 <= k < i ==> (#[trigger] out@[k])@ == found_json(symbols@[k]@),
        decreases symbols@.len() - i,
    {
        out.push(symbol_value(&symbols[i]));
        i = i + 1;
    }
    assert(jsons(out@) =~= found_list(seen(symbols@))->Arr_0);
    JsonValue::array(out)
}

/// The value of a list of references.
pub fn references_value(refs: &[ReferenceMatch]) -> (r: JsonValue)
    ensures
        r@ == reference_list(seen(refs@)),
{
    let mut out: Vec<JsonValue> = Vec::new();
    let mut i: usize = 0;
    while i < refs.len()
        invariant
            0 <= i <= refs@.len(),
            out@.len() == i,
            forall|k: int| 0 <= k < i ==> (#[trigger] out@[k])@ == reference_json(refs@[k]@),
        decreases refs@.len() - i,
    {
        out.push(reference_value(&refs[i]));
        i = i + 1;
    }
    assert(jsons(out@) =~= reference_list(seen(refs@))->Arr_0);
    JsonValue::array(out)
}

/// The value of an outline.
pub fn entries_value(symbols: &[SymbolEntry]) -> (r: JsonValue)
    ensures
        r@ == entry_list(entries(symbols@)),
{
    let mut out: Vec<JsonValue> = Vec::new();
    let mut i: usize = 0;
    while i < symbols.len()
        invariant
            0 <= i <= symbols@.len(),
            out@.len() == i,
            forall|k: int| 0 <= k < i ==> (#[trigger] out@[k])@ == entry_json(symbols@[k]@),
        decreases symbols@.len() - i,
    {
        out.push(entry_value(&symbols[i]));
        i = i + 1;
    }
    assert(jsons(out@) =~= entry_list(entries(symbols@))->Arr_0);
    JsonValue::array(out)
}

/// The value of a list of server statuses.
pub fn statuses_value(statuses: &[ServerStatus]) -> (r: JsonValue)
    ensures
        r@ == status_list(seen(statuses@)),
{
    let mut out: Vec<JsonValue> = Vec::new();
    let mut i: usize = 0;
    while i < statuses.len()
        invariant
            0 <= i <= statuses@.len(),
            out@.len() == i,
            forall|k: int| 0 <= k < i ==> (#[trigger] out@[k])@ == status_json(statuses@[k]@),
        decreases statuses@.len() - i,
    {
        out.push(status_value(&statuses[i]));
        i = i + 1;
    }
    assert(jsons(out@) =~= status_list(seen(statuses@))->Arr_0);
    JsonValue::array(out)
}

/// The value of a symbol holds what was found under the names by which it is read, and a body only where there
/// is one.
pub proof fn value_tells_of_its_symbol(f: Found)
    ensures
        found_json(f).get("path"@) == Some(Json::Str(f.path)),
        found_json(f).get("line"@) == Some(Json::Int(f.line as int)),
        found_json(f).get("kind"@) == Some(Json::Str(f.kind)),
        found_json(f).get("preview"@) == Some(Json::Str(f.preview)),
        found_json(f).get("body"@) == match f.body {
            Some(b) => Some(Json::Str(b)),
            None => None,
        },
        found_json(f).get("name"@) is None,
        found_json(f).get("is_definition"@) is None,
        found_json(f).get("containing_symbol"@) is None,
{
    key_names();
    reveal_with_fuel(key_index, 7);
}

/// The value of a use holds what is known of it under the names by which it is read, and the symbol around it
/// only where there is one.
pub proof fn value_tells_of_its_use(r: Reference)
    ensures
        reference_json(r).get("path"@) == Some(Json::Str(r.path)),
        reference_json(r).get("line"@) == Some(Json::Int(r.line as int)),
        reference_json(r).get("preview"@) == Some(Json::Str(r.preview)),
        reference_json(r).get("is_definition"@) == Some(Json::Bool(r.is_definition)),
        reference_json(r).get("name"@) is None,
        reference_json(r).get("kind"@) is None,
        reference_json(r).get("body"@) is None,
        reference_json(r).get("containing_symbol"@) == match r.containing_symbol {
            Some(c) => Some(container_json(c)),
            None => None,
        },
        r.containing_symbol matches Some(c) ==> {
            &&& container_json(c).get("name"@) == Some(Json::Str(c.name))
            &&& container_json(c).get("kind"@) == Some(Json::Str(c.kind))
            &&& container_json(c).get("line"@) == Some(Json::Int(c.line as int))
        },
{
    key_names();
    reveal_with_fuel(key_index, 7);
}

/// The value of an outline entry holds its name, its kind, its lines and the values of all entries inside it.
pub proof fn value_tells_of_its_entry(e: Entry)
    ensures
        entry_json(e).get("name"@) == Some(Json::Str(e.name)),
        entry_json(e).get("kind"@) == Some(Json::Str(e.kind)),
        entry_json(e).get("line"@) == Some(Json::Int(e.line as int)),
        entry_json(e).get("end_line"@) == Some(Json::Int(e.end_line as int)),
        entry_json(e).get("children"@) matches Some(Json::Arr(c)) && c == e.children.map_values(
            |x: Entry| entry_json(x),
        ),
{
    key_names();
    reveal_with_fuel(key_index, 7);
    let c = entry_json(e)->Obj_0[4].1->Arr_0;
    assert(c =~= e.children.map_values(|x: Entry| entry_json(x)));
}

/// The value of a server's status holds what is known of it.
pub proof fn value_tells_of_its_server(s: Status)
    ensures
        status_json(s).get("language"@) == Some(Json::Str(s.language)),
        status_json(s).get("server"@) == Some(Json::Str(s.server_name)),
        status_json(s).get("status"@) == Some(Json::Str(s.status)),
        status_json(s).get("uptime_secs"@) == Some(Json::Int(s.uptime_secs as int)),
        status_json(s).get("open_files"@) == Some(Json::Int(s.open_files as int)),
        status_json(s).get("attached_folders"@) == Some(Json::Int(s.attached_folders as int)),
        status_json(s).get("total_folders"@) == Some(Json::Int(s.total_folders as int)),
{
    reveal_strlit("language");
    reveal_strlit("server");
    reveal_strlit("status");
    reveal_strlit("uptime_secs");
    reveal_strlit("open_files");
    reveal_strlit("attached_folders");
    reveal_strlit("total_folders");
    assert("server"@[1] != "status"@[1]);
    assert("language"@.len() == 8 && "server"@.len() == 6 && "status"@.len() == 6);
    assert("uptime_secs"@.len() == 11 && "open_files"@.len() == 10);
    assert("attached_folders"@.len() == 16 && "total_folders"@.len() == 13);
    let entries = status_json(s)->Obj_0;
    first_entry_is_read(entries, "language"@, 0);
    first_entry_is_read(entries, "server"@, 1);
    first_entry_is_read(entries, "status"@, 2);
    first_entry_is_read(entries, "uptime_secs"@, 3);
    first_entry_is_read(entries, "open_files"@, 4);
    first_entry_is_read(entries, "attached_folders"@, 5);
    first_entry_is_read(entries, "total_folders"@, 6);
}

/// The value of a list holds the value of each of its items, in order.
pub proof fn lists_hold_all_values(f: Seq<Found>, r: Seq<Reference>, e: Seq<Entry>, s: Seq<Status>)
    ensures
        found_list(f) == Json::Arr(f.map_values(|x: Found| found_json(x))),
        reference_list(r) == Json::Arr(r.map_values(|x: Reference| reference_json(x))),
        entry_list(e) == Json::Arr(e.map_values(|x: Entry| entry_json(x))),
        status_list(s) == Json::Arr(s.map_values(|x: Status| status_json(x))),
{
    assert(found_list(f)->Arr_0 =~= f.map_values(|x: Found| found_json(x)));
    assert(reference_list(r)->Arr_0 =~= r.map_values(|x: Reference| reference_json(x)));
    assert(entry_list(e)->Arr_0 =~= e.map_values(|x: Entry| entry_json(x)));
    assert(status_list(s)->Arr_0 =~= s.map_values(|x: Status| status_json(x)));
}

proof fn key_names()
    ensures
        "path"@[0] == 'p' && "path"@.len() == 4,
        "line"@[0] == 'l' && "line"@.len() == 4,
        "kind"@[0] == 'k' && "kind"@.len() == 4,
        "name"@[0] == 'n' && "name"@.len() == 4,
        "body"@[0] == 'b' && "body"@.len() == 4,
        "preview"@.len() == 7,
        "end_line"@[0] == 'e' && "end_line"@.len() == 8,
        "children"@[0] == 'c' && "children"@.len() == 8,
        "is_definition"@.len() == 13,
        "containing_symbol"@.len() == 17,
{
    reveal_strlit("path");
    reveal_strlit("line");
    reveal_strlit("kind");
    reveal_strlit("name");
    reveal_strlit("body");
    reveal_strlit("preview");
    reveal_strlit("end_line");
    reveal_strlit("children");
    reveal_strlit("is_definition");
    reveal_strlit("containing_symbol");
}

} // verus!
