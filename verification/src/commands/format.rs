//! Formatting a file.

use crate::commands::workspace_edit::{copy_values, file_edits, uri_path};
use crate::json::{entries_view, field, first_entry_is_read, jsons, Json, JsonValue};
use vstd::prelude::*;

verus! {

/// The parameters of a formatting request.
pub open spec fn formatting_json(uri: Seq<char>) -> Json {
    Json::Obj(
        seq![
            ("textDocument"@, Json::Obj(seq![("uri"@, Json::Str(uri))])),
            ("options"@, Json::Obj(seq![("tabSize"@, Json::Int(4)), ("insertSpaces"@, Json::Bool(true))])),
        ],
    )
}

/// Builds the parameters of a formatting request.
pub fn formatting_params(uri: &str) -> (r: JsonValue)
    ensures
        r@ == formatting_json(uri@),
{
    let document = vec![field("uri", JsonValue::str(uri))];
    let options = vec![field("tabSize", JsonValue::UInt(4)), field("insertSpaces", JsonValue::Bool(true))];
    let ghost want = formatting_json(uri@);
    assert(entries_view(document@) =~= want->Obj_0[0].1->Obj_0);
    assert(entries_view(options@) =~= want->Obj_0[1].1->Obj_0);
    let fields = vec![
        field("textDocument", JsonValue::object(document)),
        field("options", JsonValue::object(options)),
    ];
    assert(entries_view(fields@) =~= want->Obj_0);
    JsonValue::object(fields)
}

/// The edits of a formatting response; none where it is no list.
pub open spec fn edits_of(response: Json) -> Seq<Json> {
    match response.as_array() {
        Some(a) => a,
        None => Seq::empty(),
    }
}

/// The workspace edit that applies text edits to one document.
pub open spec fn single_file_edit(uri: Seq<char>, edits: Seq<Json>) -> Json {
    Json::Obj(seq![("changes"@, Json::Obj(seq![(uri, Json::Arr(edits))]))])
}

/// What formatting changes: the edit to apply, where there is any, and the answer.
pub struct FormatPlan {
    pub edit: Option<JsonValue>,
    pub response: JsonValue,
}

/// Plans what a formatting response changes.
pub fn handle_format(response: &JsonValue, uri: &str, rel_path: &str) -> (r: FormatPlan)
    ensures
        ({
            let edits = edits_of(response@);
            &&& r.response@ == Json::Obj(
                seq![("path"@, Json::Str(rel_path@)), ("edits_applied"@, Json::Int(edits.len() as int))],
            )
            &&& match r.edit {
                Some(e) => edits.len() > 0 && e@ == single_file_edit(uri@, edits),
                None => edits.len() == 0,
            }
        }),
{
    let edits: Vec<JsonValue> = match response.as_array() {
        Some(a) => copy_values(a),
        None => Vec::new(),
    };
    let ghost all = edits_of(response@);
    assert(jsons(edits@) =~= all);
    let n: usize = edits.len();
    assert(jsons(edits@).len() == n);
    let fields = vec![field("path", JsonValue::str(rel_path)), field("edits_applied", JsonValue::number(n))];
    assert(entries_view(fields@) =~= seq![
        ("path"@, Json::Str(rel_path@)),
        ("edits_applied"@, Json::Int(n as int)),
    ]);
    let answer = JsonValue::object(fields);
    if n == 0 {
        return FormatPlan { edit: None, response: answer };
    }
    let changes = vec![field(uri, JsonValue::array(edits))];
    let ghost want = single_file_edit(uri@, all);
    assert(entries_view(changes@) =~= want->Obj_0[0].1->Obj_0);
    let outer = vec![field("changes", JsonValue::object(changes))];
    assert(entries_view(outer@) =~= want->Obj_0);
    FormatPlan { edit: Some(JsonValue::object(outer)), response: answer }
}

/// What formatting applies are all the edits of the response, to the one document and no other.
pub proof fn formatting_edits_its_document(uri: Seq<char>, edits: Seq<Json>)
    ensures
        edits_of(Json::Arr(edits)) == edits,
        file_edits(single_file_edit(uri, edits)) == seq![(uri_path(uri), edits)],
{
    reveal_strlit("documentChanges");
    reveal_strlit("changes");
    assert("documentChanges"@.len() == 15 && "changes"@.len() == 7);
    let e = single_file_edit(uri, edits);
    first_entry_is_read(e->Obj_0, "documentChanges"@, 1);
    first_entry_is_read(e->Obj_0, "changes"@, 0);
    assert(file_edits(e) =~= seq![(uri_path(uri), edits)]);
}

} // verus!
