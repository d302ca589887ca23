//! Renaming a symbol.

use crate::commands::hover::{position_fields, position_json};
use crate::commands::workspace_edit::{
    count_workspace_edits, edit_count, effective_edits, file_edit_views, file_edits, plan_workspace_edit,
};
use crate::json::{entries_view, field, Json, JsonValue};
use vstd::prelude::*;

verus! {

/// Builds the parameters of a rename request.
pub fn rename_params(uri: &str, line: u32, character: u32, new_name: &str) -> (r: JsonValue)
    ensures
        r@ == Json::Obj(position_json(uri@, line, character)->Obj_0.push(("newName"@, Json::Str(new_name@)))),
{
    let mut fields = position_fields(uri, line, character);
    let ghost before = entries_view(fields@);
    fields.push(field("newName", JsonValue::str(new_name)));
    assert(entries_view(fields@) =~= before.push(("newName"@, Json::Str(new_name@))));
    JsonValue::object(fields)
}

/// The answer to a rename.
pub open spec fn rename_json(files: int, refs: int) -> Json {
    Json::Obj(seq![("files_changed"@, Json::Int(files)), ("refs_changed"@, Json::Int(refs))])
}

/// What a rename changes: the files with their edits, and the answer. A server that gives no edit
/// changes nothing.
pub struct RenamePlan {
    pub files: Vec<(String, Vec<JsonValue>)>,
    pub response: JsonValue,
}

/// Plans what a rename response changes.
pub fn handle_rename(workspace_edit: &JsonValue, project_root: &str) -> (r: RenamePlan)
    requires
        edit_count(file_edits(workspace_edit@)) <= usize::MAX,
    ensures
        if workspace_edit@ == Json::Null {
            r.files@.len() == 0 && r.response@ == rename_json(0, 0)
        } else {
            let files = effective_edits(file_edits(workspace_edit@), project_root@);
            &&& file_edit_views(r.files@) == files
            &&& r.response@ == rename_json(files.len() as int, edit_count(file_edits(workspace_edit@)) as int)
        },
{
    let mut files: Vec<(String, Vec<JsonValue>)> = Vec::new();
    let mut refs: usize = 0;
    if !workspace_edit.is_null() {
        refs = count_workspace_edits(workspace_edit);
        files = plan_workspace_edit(workspace_edit, project_root);
        assert(file_edit_views(files@).len() == files@.len());
    }
    let fields = vec![
        field("files_changed", JsonValue::number(files.len())),
        field("refs_changed", JsonValue::number(refs)),
    ];
    assert(entries_view(fields@) =~= rename_json(files@.len() as int, refs as int)->Obj_0);
    RenamePlan { files, response: JsonValue::object(fields) }
}

} // verus!
