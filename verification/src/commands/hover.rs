//! Type information and documentation of a symbol.

use crate::json::{entries_view, field, jsons, Json, JsonValue};
use crate::text::{join, join_strings, str_trim, trim, views};
use vstd::prelude::*;

verus! {

/// The text of one part of a hover: a string, or an object with a value.
pub open spec fn part_text(v: Json) -> Option<Seq<char>> {
    match v {
        Json::Str(s) => Some(s),
        _ => match v.get("value"@) {
            Some(Json::Str(s)) => Some(s),
            _ => None,
        },
    }
}

/// The texts of the parts of a hover.
pub open spec fn part_texts(s: Seq<Json>) -> Seq<Seq<char>>
    decreases s.len(),
{
    if s.len() == 0 {
        Seq::empty()
    } else {
        match part_text(s.last()) {
            Some(t) => part_texts(s.drop_last()).push(t),
            None => part_texts(s.drop_last()),
        }
    }
}

/// The text of a hover response: of markup, of a string, or of a list of either, one below the
/// other.
pub open spec fn hover_content(response: Json) -> Seq<char> {
    match response.get("contents"@) {
        Some(c) => match c.get("value"@) {
            Some(Json::Str(s)) => trim(s),
            _ => match c {
                Json::Str(s) => trim(s),
                Json::Arr(parts) => trim(join(part_texts(parts), "\n"@)),
                _ => Seq::empty(),
            },
        },
        None => Seq::empty(),
    }
}

fn read_part(v: &JsonValue) -> (r: Option<String>)
    ensures
        crate::text::opt_view(r) == part_text(v@),
{
    match v.as_str() {
        Some(s) => Some(s.to_string()),
        None => match v.get("value") {
            Some(x) => match x.as_str() {
                Some(s) => Some(s.to_string()),
                None => None,
            },
            None => None,
        },
    }
}

/// Extracts a plain-text string from a hover response.
pub fn extract_hover_content(response: &JsonValue) -> (r: String)
    ensures
        r@ == hover_content(response@),
{
    let contents = match response.get("contents") {
        Some(c) => c,
        None => {
            return String::new();
        },
    };
    if let Some(v) = contents.get("value") {
        if let Some(s) = v.as_str() {
            return str_trim(s);
        }
    }
    if let Some(s) = contents.as_str() {
        return str_trim(s);
    }
    if let Some(items) = contents.as_array() {
        let ghost all = jsons(items@);
        let mut parts: Vec<String> = Vec::new();
        let mut i: usize = 0;
        assert(all.take(0) =~= Seq::empty());
        assert(views(parts@) =~= Seq::empty());
        while i < items.len()
            invariant
                0 <= i <= items@.len(),
                all == jsons(items@),
                views(parts@) == part_texts(all.take(i as int)),
            decreases items@.len() - i,
        {
            assert(all.take(i + 1).drop_last() =~= all.take(i as int));
            assert(all.take(i + 1).last() == items@[i as int]@);
            if let Some(t) = read_part(&items[i]) {
                let ghost before = views(parts@);
                let ghost tv = t@;
                parts.push(t);
                assert(views(parts@) =~= before.push(tv));
            }
            i = i + 1;
        }
        assert(all.take(i as int) =~= all);
        return str_trim(join_strings(&parts, "\n").as_str());
    }
    String::new()
}

/// The position of a symbol in a document.
pub open spec fn position_json(uri: Seq<char>, line: u32, character: u32) -> Json {
    Json::Obj(
        seq![
            ("textDocument"@, Json::Obj(seq![("uri"@, Json::Str(uri))])),
            (
                "position"@,
                Json::Obj(seq![("line"@, Json::Int(line as int)), ("character"@, Json::Int(character as int))]),
            ),
        ],
    )
}

/// Builds the fields that name a position in a document.
pub(crate) fn position_fields(uri: &str, line: u32, character: u32) -> (r: Vec<(String, JsonValue)>)
    ensures
        entries_view(r@) == position_json(uri@, line, character)->Obj_0,
{
    let document = vec![field("uri", JsonValue::str(uri))];
    let position = vec![
        field("line", JsonValue::UInt(line as u64)),
        field("character", JsonValue::UInt(character as u64)),
    ];
    let ghost want = position_json(uri@, line, character);
    assert(entries_view(document@) =~= want->Obj_0[0].1->Obj_0);
    assert(entries_view(position@) =~= want->Obj_0[1].1->Obj_0);
    let r = vec![
        field("textDocument", JsonValue::object(document)),
        field("position", JsonValue::object(position)),
    ];
    assert(entries_view(r@) =~= want->Obj_0);
    r
}

/// Builds the parameters that name a position in a document.
pub fn position_params(uri: &str, line: u32, character: u32) -> (r: JsonValue)
    ensures
        r@ == position_json(uri@, line, character),
{
    JsonValue::object(position_fields(uri, line, character))
}

/// The answer to a hover; its line is counted from 1.
pub fn handle_hover(response: &JsonValue, rel_path: &str, line: u32) -> (r: JsonValue)
    ensures
        r@ == Json::Obj(
            seq![
                ("hover_content"@, Json::Str(hover_content(response@))),
                ("path"@, Json::Str(rel_path@)),
                ("line"@, Json::Int(line.wrapping_add(1) as int)),
            ],
        ),
{
    let fields = vec![
        field("hover_content", JsonValue::String(extract_hover_content(response))),
        field("path", JsonValue::str(rel_path)),
        field("line", JsonValue::UInt(line.wrapping_add(1) as u64)),
    ];
    assert(entries_view(fields@) =~= seq![
        ("hover_content"@, Json::Str(hover_content(response@))),
        ("path"@, Json::Str(rel_path@)),
        ("line"@, Json::Int(line.wrapping_add(1) as int)),
    ]);
    JsonValue::object(fields)
}

/// The parts of a hover that have a text are shown, in order.
pub proof fn all_parts_are_shown(s: Seq<Json>)
    ensures
        part_texts(s) == s.filter(|v: Json| v.as_str() is Some || (v.get("value"@) is Some && v.get("value"@)->Some_0.as_str() is Some)).map_values(|v: Json| if v.as_str() is Some { v.as_str()->Some_0 } else { v.get("value"@)->Some_0.as_str()->Some_0 }),
    decreases s.len(),
{
    reveal(Seq::filter);
    let p = |v: Json| v.as_str() is Some || (v.get("value"@) is Some && v.get("value"@)->Some_0.as_str() is Some);
    let make = |v: Json| if v.as_str() is Some { v.as_str()->Some_0 } else { v.get("value"@)->Some_0.as_str()->Some_0 };
    if s.len() > 0 {
        all_parts_are_shown(s.drop_last());
        let rest = s.drop_last().filter(p);
        if p(s.last()) {
            assert(rest.push(s.last()).map_values(make) =~= rest.map_values(make).push(make(s.last())));
        }
    } else {
        assert(s.filter(p).map_values(make) =~= Seq::empty());
    }
}

/// The text of a hover is what its contents say, without the space around it: markup, a string, or the
/// texts of a list with a line feed between them.
pub proof fn contents_are_shown(response: Json, text: Seq<char>, parts: Seq<Json>)
    ensures
        response.get("contents"@) == Some(Json::Str(text)) ==> hover_content(response) == trim(text),
        response.get2("contents"@, "value"@) == Some(Json::Str(text)) ==> hover_content(response) == trim(text),
        response.get("contents"@) == Some(Json::Arr(parts)) ==> hover_content(response) == trim(
            join(part_texts(parts), seq!['\n']),
        ),
        response.get("contents"@) is None ==> hover_content(response).len() == 0,
{
    reveal_strlit("\n");
    assert("\n"@ =~= seq!['\n']);
}

} // verus!
