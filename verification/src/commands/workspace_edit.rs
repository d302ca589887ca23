//! Applying the text edits of a language server to the text of files.

use crate::commands::edit::{splice_lines, spliced};
use crate::json::{entries_view, jsons, Json, JsonValue};
use crate::paths::{joined, path_eq, path_join, same_path};
use crate::sorting::{in_order, is_order, rank, seen, sort, sorted_by, sorting_ignores_order, sorting_sorted, tied, Ranked};
use crate::text::{
    char_index, char_index_is_first,
    chars_of, ends_with, join, join_strings, lines, lines_are_pieces, push_char, split_add, split_is_undone,
    split_lines, split_on, starts_with, str_contains_char, str_strip_prefix, string_of, utf16_cut,
    utf16_cut_is_longest, utf16_len, utf16_len_mono, utf16_offset, utf16_units, views,
};
use vstd::prelude::*;

verus! {

// ── Models ──────────────────────────────────────────────────────────────────

/// A text edit: a range of lines and characters, and the text that takes its place. Characters are
/// counted in UTF-16 units.
pub struct TextEdit {
    pub start_line: usize,
    pub start_char: usize,
    pub end_line: usize,
    pub end_char: usize,
    pub new_text: String,
}

/// The number that a text edit holds under `range`, `which` and `what`, or 0.
pub open spec fn range_number(e: Json, which: Seq<char>, what: Seq<char>) -> usize {
    match e.get3("range"@, which, what) {
        Some(v) => match v.as_u64() {
            Some(n) => n as usize,
            None => 0,
        },
        None => 0,
    }
}

/// The mathematical value of a [`TextEdit`].
#[verifier::ext_equal]
pub struct TextEditView {
    pub start_line: int,
    pub start_char: int,
    pub end_line: int,
    pub end_char: int,
    pub new_text: Seq<char>,
}

impl View for TextEdit {
    type V = TextEditView;

    open spec fn view(&self) -> TextEditView {
        TextEditView {
            start_line: self.start_line as int,
            start_char: self.start_char as int,
            end_line: self.end_line as int,
            end_char: self.end_char as int,
            new_text: self.new_text@,
        }
    }
}

/// What a text edit of the protocol says.
pub open spec fn text_edit(e: Json) -> TextEditView {
    TextEditView {
        start_line: range_number(e, "start"@, "line"@) as int,
        start_char: range_number(e, "start"@, "character"@) as int,
        end_line: range_number(e, "end"@, "line"@) as int,
        end_char: range_number(e, "end"@, "character"@) as int,
        new_text: e.str_or("newText"@, ""@),
    }
}

/// What the text edits of the protocol say.
pub open spec fn text_edits(edits: Seq<Json>) -> Seq<TextEditView> {
    Seq::new(edits.len(), |i: int| text_edit(edits[i]))
}

/// `a` starts behind `b`.
pub open spec fn starts_behind(a: TextEditView, b: TextEditView) -> bool {
    a.start_line > b.start_line || (a.start_line == b.start_line && a.start_char > b.start_char)
}

impl Ranked for TextEdit {
    /// Later positions come first, so that earlier ones stay valid while edits are applied.
    open spec fn before(a: TextEditView, b: TextEditView) -> bool {
        starts_behind(a, b)
    }

    fn is_before(&self, other: &TextEdit) -> (r: bool) {
        self.start_line > other.start_line || (self.start_line == other.start_line && self.start_char
            > other.start_char)
    }
}

/// The longest prefix of `s` that has at most `n` UTF-16 units.
pub open spec fn head(s: Seq<char>, n: int) -> Seq<char> {
    s.take(utf16_cut(s, n))
}

/// What follows the longest prefix of `s` that has at most `n` UTF-16 units.
pub open spec fn tail(s: Seq<char>, n: int) -> Seq<char> {
    s.skip(utf16_cut(s, n))
}

/// `ls`, with empty lines added up to line `last`.
pub open spec fn extended(ls: Seq<Seq<char>>, last: int) -> Seq<Seq<char>> {
    if last < ls.len() {
        ls
    } else {
        ls + Seq::new((last + 1 - ls.len()) as nat, |i: int| Seq::empty())
    }
}

/// The lines of a text after one edit.
///
/// An edit inside one line whose new text has no line feed leaves a line in its place, even an
/// empty one; any other puts the lines of the new text there.
pub open spec fn edited(ls: Seq<Seq<char>>, t: TextEditView) -> Seq<Seq<char>> {
    let all = extended(ls, t.end_line);
    let text = head(all[t.start_line], t.start_char) + t.new_text + tail(all[t.end_line], t.end_char);
    if t.start_line == t.end_line && !t.new_text.contains('\n') {
        all.update(t.start_line, text)
    } else {
        spliced(all, t.start_line, t.end_line + 1, lines(text))
    }
}

/// The lines of a text after the edits, one after the other.
pub open spec fn edited_all(ls: Seq<Seq<char>>, edits: Seq<TextEditView>) -> Seq<Seq<char>>
    decreases edits.len(),
{
    if edits.len() == 0 {
        ls
    } else {
        edited(edited_all(ls, edits.drop_last()), edits.last())
    }
}

/// The text edits of the protocol in the order of applying them: last position first.
pub open spec fn last_first(edits: Seq<Json>) -> Seq<TextEditView> {
    sorted_by(text_edits(edits), |a: TextEditView, b: TextEditView| starts_behind(a, b))
}

/// An edit can be applied to lines: it does not end before it starts. One that ends on the line
/// before the one it starts on can be, where that line is there.
pub open spec fn applies(ls: Seq<Seq<char>>, t: TextEditView) -> bool {
    &&& t.end_line < usize::MAX
    &&& t.start_line <= t.end_line || (t.start_line == t.end_line + 1 && t.start_line < ls.len())
}

/// The edits can be applied to lines, one after the other.
pub open spec fn all_apply(ls: Seq<Seq<char>>, edits: Seq<TextEditView>) -> bool
    decreases edits.len(),
{
    edits.len() == 0 || (all_apply(ls, edits.drop_last()) && applies(
        edited_all(ls, edits.drop_last()),
        edits.last(),
    ))
}

/// Where all edits can be applied, each can be after those before it.
proof fn each_applies(ls: Seq<Seq<char>>, edits: Seq<TextEditView>, j: int)
    requires
        all_apply(ls, edits),
        0 <= j < edits.len(),
    ensures
        applies(edited_all(ls, edits.take(j)), edits[j]),
    decreases edits.len(),
{
    if j < edits.len() - 1 {
        each_applies(ls, edits.drop_last(), j);
        assert(edits.drop_last().take(j) =~= edits.take(j));
    } else {
        assert(edits.take(j) =~= edits.drop_last());
    }
}

/// The text of a file after the text edits of the protocol, applied last position first.
pub open spec fn edited_text(content: Seq<char>, edits: Seq<Json>) -> Seq<char> {
    rejoined(edited_all(lines(content), last_first(edits)), ends_with(content, seq!['\n']))
}

/// The text of `ls`, with a line feed at its end where the text before the edits had one.
pub open spec fn rejoined(ls: Seq<Seq<char>>, trailing_newline: bool) -> Seq<char> {
    let s = join(ls, seq!['\n']);
    if trailing_newline && !(s.len() > 0 && s.last() == '\n') {
        s.push('\n')
    } else {
        s
    }
}

// ── Applying edits ──────────────────────────────────────────────────────────

/// Applies one edit to the lines of a text. Characters are counted in UTF-16 units.
pub fn apply_single_edit(
    lines: &mut Vec<String>,
    start_line: usize,
    start_char: usize,
    end_line: usize,
    end_char: usize,
    new_text: &str,
)
    requires
        end_line < usize::MAX,
        start_line <= end_line || (start_line == end_line + 1 && start_line < old(lines)@.len()),
    ensures
        views(final(lines)@) == edited(
            views(old(lines)@),
            TextEditView {
                start_line: start_line as int,
                start_char: start_char as int,
                end_line: end_line as int,
                end_char: end_char as int,
                new_text: new_text@,
            },
        ),
{
    let ghost before = views(lines@);
    assert(before.len() == lines@.len());
    while lines.len() <= end_line
        invariant
            end_line < usize::MAX,
            before.len() <= lines@.len(),
            lines@.len() <= end_line ==> views(lines@) == before + Seq::new(
                (lines@.len() - before.len()) as nat,
                |i: int| Seq::empty(),
            ),
            before.len() <= end_line ==> lines@.len() <= end_line + 1,
            before.len() > end_line ==> views(lines@) == before,
            lines@.len() > end_line ==> views(lines@) == extended(before, end_line as int),
        decreases end_line + 1 - lines@.len(),
    {
        let ghost prior = views(lines@);
        lines.push(String::new());
        assert(views(lines@) =~= prior.push(Seq::empty()));
        assert(views(lines@) =~= before + Seq::new(
            (lines@.len() - before.len()) as nat,
            |i: int| Seq::<char>::empty(),
        ));
    }
    let ghost all = views(lines@);
    let first = chars_of(lines[start_line].as_str());
    let last = chars_of(lines[end_line].as_str());
    assert(first@ == all[start_line as int] && last@ == all[end_line as int]);
    let a: usize = utf16_offset(&first, start_char);
    let b: usize = utf16_offset(&last, end_char);
    let mut combined = string_of(&first, 0, a);
    assert(combined@ =~= head(first@, start_char as int));
    combined.append(new_text);
    let rest = string_of(&last, b, last.len());
    assert(rest@ =~= tail(last@, end_char as int));
    combined.append(rest.as_str());
    if start_line == end_line && !str_contains_char(new_text, '\n') {
        let ghost text = combined@;
        lines.set(start_line, combined);
        assert(views(lines@) =~= all.update(start_line as int, text));
    } else {
        let new_lines = split_lines(combined.as_str());
        let changed = splice_lines(lines, start_line, end_line + 1, &new_lines);
        *lines = changed;
    }
}

/// Reads a text edit of the protocol.
fn read_range_number(e: &JsonValue, which: &str, what: &str) -> (r: usize)
    ensures
        r == range_number(e@, which@, what@),
{
    match e.get3("range", which, what) {
        Some(v) => match v.as_u64() {
            Some(n) => n as usize,
            None => 0,
        },
        None => 0,
    }
}

/// Reads a text edit of the protocol; what is missing counts as 0 or as no text.
pub fn parse_text_edit(e: &JsonValue) -> (r: TextEdit)
    ensures
        r@ == text_edit(e@),
{
    TextEdit {
        start_line: read_range_number(e, "start", "line"),
        start_char: read_range_number(e, "start", "character"),
        end_line: read_range_number(e, "end", "line"),
        end_char: read_range_number(e, "end", "character"),
        new_text: e.str_or("newText", ""),
    }
}

/// Reads text edits of the protocol, and puts them in the order of applying them.
fn ordered_edits(edits: &Vec<JsonValue>) -> (r: Vec<TextEdit>)
    ensures
        seen(r@) == last_first(jsons(edits@)),
{
    let mut parsed: Vec<TextEdit> = Vec::new();
    let mut i: usize = 0;
    while i < edits.len()
        invariant
            0 <= i <= edits@.len(),
            parsed@.len() == i,
            forall|k: int| 0 <= k < i ==> (#[trigger] parsed@[k])@ == text_edit(jsons(edits@)[k]),
        decreases edits@.len() - i,
    {
        parsed.push(parse_text_edit(&edits[i]));
        i = i + 1;
    }
    assert(seen(parsed@) =~= text_edits(jsons(edits@)));
    assert(rank::<TextEdit>() =~= |a: TextEditView, b: TextEditView| starts_behind(a, b));
    sort(parsed)
}

/// Whether text edits of the protocol can be applied to a text.
pub fn can_apply(content: &str, edits: &Vec<JsonValue>) -> (r: bool)
    ensures
        r == all_apply(lines(content@), last_first(jsons(edits@))),
{
    let ordered = ordered_edits(edits);
    let ghost all = last_first(jsons(edits@));
    let mut ls = split_lines(content);
    let mut j: usize = 0;
    assert(all.take(0) =~= Seq::empty());
    while j < ordered.len()
        invariant
            0 <= j <= ordered@.len(),
            all == last_first(jsons(edits@)),
            seen(ordered@) == all,
            all_apply(lines(content@), all.take(j as int)),
            views(ls@) == edited_all(lines(content@), all.take(j as int)),
        decreases ordered@.len() - j,
    {
        let t = &ordered[j];
        assert(all[j as int] == t@);
        assert(views(ls@).len() == ls@.len());
        let fits = t.end_line < usize::MAX && (t.start_line <= t.end_line || (t.start_line == t.end_line + 1
            && t.start_line < ls.len()));
        if !fits {
            proof {
                if all_apply(lines(content@), all) {
                    each_applies(lines(content@), all, j as int);
                }
            }
            return false;
        }
        apply_single_edit(&mut ls, t.start_line, t.start_char, t.end_line, t.end_char, t.new_text.as_str());
        assert(all.take(j + 1).drop_last() =~= all.take(j as int));
        assert(all.take(j + 1).last() == t@);
        j = j + 1;
    }
    assert(all.take(j as int) =~= all);
    true
}

/// Applies the text edits of the protocol to a text, last position first.
pub fn apply_text_edits(content: &str, edits: &Vec<JsonValue>) -> (r: String)
    requires
        all_apply(lines(content@), last_first(jsons(edits@))),
    ensures
        r@ == edited_text(content@, jsons(edits@)),
{
    let ordered = ordered_edits(edits);
    let ghost all = last_first(jsons(edits@));
    let mut ls = split_lines(content);
    let mut j: usize = 0;
    assert(all.take(0) =~= Seq::empty());
    while j < ordered.len()
        invariant
            0 <= j <= ordered@.len(),
            all == last_first(jsons(edits@)),
            seen(ordered@) == all,
            all_apply(lines(content@), all),
            views(ls@) == edited_all(lines(content@), all.take(j as int)),
        decreases ordered@.len() - j,
    {
        let t = &ordered[j];
        assert(all[j as int] == t@);
        assert(views(ls@).len() == ls@.len());
        proof {
            each_applies(lines(content@), all, j as int);
        }
        apply_single_edit(&mut ls, t.start_line, t.start_char, t.end_line, t.end_char, t.new_text.as_str());
        assert(all.take(j + 1).drop_last() =~= all.take(j as int));
        assert(all.take(j + 1).last() == t@);
        j = j + 1;
    }
    assert(all.take(j as int) =~= all);
    proof {
        reveal_strlit("\n");
        assert("\n"@ =~= seq!['\n']);
    }
    let mut text = join_strings(&ls, "\n");
    let tv = chars_of(text.as_str());
    let cv = chars_of(content);
    let trailing = cv.len() > 0 && cv[cv.len() - 1] == '\n';
    proof {
        if cv@.len() > 0 {
            assert(content@.skip(content@.len() - 1) =~= seq![content@.last()]);
            if content@.last() != '\n' {
                assert(seq![content@.last()][0] != seq!['\n'][0]);
            }
        }
        assert(trailing == ends_with(content@, seq!['\n']));
    }
    if trailing && (tv.len() == 0 || tv[tv.len() - 1] != '\n') {
        push_char(&mut text, '\n');
    }
    text
}

// ── Edits of a whole workspace ──────────────────────────────────────────────

/// The file of a URI: what follows the scheme `file`, or all of it.
pub open spec fn uri_path(uri: Seq<char>) -> Seq<char> {
    if starts_with(uri, "file://"@) {
        uri.skip("file://"@.len() as int)
    } else {
        uri
    }
}

/// The files that document changes edit, each with its edits.
pub open spec fn document_edits(changes: Seq<Json>) -> Seq<(Seq<char>, Seq<Json>)>
    decreases changes.len(),
{
    if changes.len() == 0 {
        Seq::empty()
    } else {
        let rest = document_edits(changes.drop_last());
        match changes.last().get_array("edits"@) {
            Some(edits) => rest.push(
                (
                    uri_path(
                        match changes.last().get2("textDocument"@, "uri"@) {
                            Some(Json::Str(s)) => s,
                            _ => Seq::empty(),
                        },
                    ),
                    edits,
                ),
            ),
            None => rest,
        }
    }
}

/// The items of an array, or none where it is no array.
pub open spec fn items_or_none(v: Json) -> Seq<Json> {
    match v.as_array() {
        Some(a) => a,
        None => Seq::empty(),
    }
}

/// The files that a workspace edit touches, each with its edits. Document changes go before the
/// older form, which is not looked at where there are any.
pub open spec fn file_edits(edit: Json) -> Seq<(Seq<char>, Seq<Json>)> {
    match edit.get_array("documentChanges"@) {
        Some(changes) => document_edits(changes),
        None => match edit.get("changes"@) {
            Some(Json::Obj(o)) => Seq::new(o.len(), |i: int| (uri_path(o[i].0), items_or_none(o[i].1))),
            _ => Seq::empty(),
        },
    }
}

/// The views of files with their edits.
pub open spec fn file_edit_views(v: Seq<(String, Vec<JsonValue>)>) -> Seq<(Seq<char>, Seq<Json>)> {
    Seq::new(v.len(), |i: int| (v[i].0@, jsons(v[i].1@)))
}

/// The files with at least one edit, as seen from the project root.
pub open spec fn effective_edits(files: Seq<(Seq<char>, Seq<Json>)>, root: Seq<char>) -> Seq<(Seq<char>, Seq<Json>)>
    decreases files.len(),
{
    if files.len() == 0 {
        Seq::empty()
    } else {
        let rest = effective_edits(files.drop_last(), root);
        let f = files.last();
        if f.1.len() == 0 {
            rest
        } else {
            rest.push((joined(root, f.0), f.1))
        }
    }
}

/// Number of edits in all files together.
pub open spec fn edit_count(files: Seq<(Seq<char>, Seq<Json>)>) -> nat
    decreases files.len(),
{
    if files.len() == 0 {
        0
    } else {
        edit_count(files.drop_last()) + files.last().1.len()
    }
}

/// The file of a URI.
pub fn uri_to_path(uri: &str) -> (r: String)
    ensures
        r@ == uri_path(uri@),
{
    match str_strip_prefix(uri, "file://") {
        Some(rest) => rest,
        None => uri.to_string(),
    }
}

/// Copies a list of values.
pub fn copy_values(v: &Vec<JsonValue>) -> (r: Vec<JsonValue>)
    ensures
        jsons(r@) == jsons(v@),
{
    let mut out: Vec<JsonValue> = Vec::new();
    let mut i: usize = 0;
    while i < v.len()
        invariant
            0 <= i <= v@.len(),
            out@.len() == i,
            forall|k: int| 0 <= k < i ==> (#[trigger] out@[k])@ == v@[k]@,
        decreases v@.len() - i,
    {
        out.push(v[i].copy());
        i = i + 1;
    }
    assert(jsons(out@) =~= jsons(v@));
    out
}

/// Collects the files and their text edits from any form of workspace edit.
pub fn collect_file_edits(edit: &JsonValue) -> (r: Vec<(String, Vec<JsonValue>)>)
    ensures
        file_edit_views(r@) == file_edits(edit@),
{
    let mut result: Vec<(String, Vec<JsonValue>)> = Vec::new();
    match edit.get_array("documentChanges") {
        Some(changes) => {
            let mut i: usize = 0;
            let ghost all = jsons(changes@);
            assert(all.take(0) =~= Seq::empty());
            assert(file_edit_views(result@) =~= document_edits(all.take(0)));
            while i < changes.len()
                invariant
                    0 <= i <= changes@.len(),
                    all == jsons(changes@),
                    file_edit_views(result@) == document_edits(all.take(i as int)),
                decreases changes@.len() - i,
            {
                let change = &changes[i];
                let ghost before = result@;
                assert(all.take(i + 1).drop_last() =~= all.take(i as int));
                assert(all.take(i + 1).last() == change@);
                match change.get_array("edits") {
                    Some(edits) => {
                        let path = match change.get2("textDocument", "uri") {
                            Some(u) => match u.as_str() {
                                Some(s) => uri_to_path(s),
                                None => uri_to_path(""),
                            },
                            None => uri_to_path(""),
                        };
                        proof {
                            reveal_strlit("");
                            assert(""@ =~= Seq::empty());
                        }
                        result.push((path, copy_values(edits)));
                        assert(file_edit_views(result@) =~= file_edit_views(before).push(
                            (path@, jsons(edits@)),
                        ));
                    },
                    None => {},
                }
                i = i + 1;
            }
            assert(all.take(i as int) =~= all);
        },
        None => match edit.get("changes") {
            Some(c) => match c.as_object() {
                Some(entries) => {
                    let mut i: usize = 0;
                    let ghost all = entries_view(entries@);
                    while i < entries.len()
                        invariant
                            0 <= i <= entries@.len(),
                            result@.len() == i,
                            all == entries_view(entries@),
                            forall|k: int|
                                0 <= k < i ==> (#[trigger] result@[k]).0@ == uri_path(all[k].0) && jsons(
                                    result@[k].1@,
                                ) == items_or_none(all[k].1),
                        decreases entries@.len() - i,
                    {
                        let path = uri_to_path(entries[i].0.as_str());
                        let edits = match entries[i].1.as_array() {
                            Some(a) => copy_values(a),
                            None => Vec::new(),
                        };
                        assert(jsons(edits@) =~= items_or_none(all[i as int].1));
                        result.push((path, edits));
                        i = i + 1;
                    }
                    assert(file_edit_views(result@) =~= file_edits(edit@));
                },
                None => {
                    assert(file_edit_views(result@) =~= Seq::empty());
                },
            },
            None => {
                assert(file_edit_views(result@) =~= Seq::empty());
            },
        },
    }
    result
}

/// The files that a workspace edit changes, by absolute path, each with the edits to apply to it.
pub fn plan_workspace_edit(edit: &JsonValue, project_root: &str) -> (r: Vec<(String, Vec<JsonValue>)>)
    ensures
        file_edit_views(r@) == effective_edits(file_edits(edit@), project_root@),
{
    let files = collect_file_edits(edit);
    let ghost all = file_edit_views(files@);
    let mut result: Vec<(String, Vec<JsonValue>)> = Vec::new();
    let mut i: usize = 0;
    assert(all.take(0) =~= Seq::empty());
    assert(file_edit_views(result@) =~= effective_edits(all.take(0), project_root@));
    while i < files.len()
        invariant
            0 <= i <= files@.len(),
            all == file_edit_views(files@),
            file_edit_views(result@) == effective_edits(all.take(i as int), project_root@),
        decreases files@.len() - i,
    {
        let f = &files[i];
        let ghost before = result@;
        assert(all.take(i + 1).drop_last() =~= all.take(i as int));
        assert(all.take(i + 1).last() == (f.0@, jsons(f.1@)));
        if f.1.len() > 0 {
            let path = path_join(project_root, f.0.as_str());
            result.push((path, copy_values(&f.1)));
            assert(file_edit_views(result@) =~= file_edit_views(before).push((path@, jsons(f.1@))));
        }
        i = i + 1;
    }
    assert(all.take(i as int) =~= all);
    result
}

/// Counts the text edits across all files in a workspace edit.
pub fn count_workspace_edits(edit: &JsonValue) -> (r: usize)
    requires
        edit_count(file_edits(edit@)) <= usize::MAX,
    ensures
        r == edit_count(file_edits(edit@)),
{
    let files = collect_file_edits(edit);
    let ghost all = file_edit_views(files@);
    let mut count: usize = 0;
    let mut i: usize = 0;
    assert(all.take(0) =~= Seq::empty());
    while i < files.len()
        invariant
            0 <= i <= files@.len(),
            all == file_edit_views(files@),
            edit_count(all) <= usize::MAX,
            count == edit_count(all.take(i as int)),
        decreases files@.len() - i,
    {
        proof {
            edit_count_mono(all, i + 1);
            assert(all.take(i + 1).drop_last() =~= all.take(i as int));
            assert(all.take(i + 1).last() == all[i as int]);
        }
        count = count + files[i].1.len();
        i = i + 1;
    }
    assert(all.take(i as int) =~= all);
    count
}

proof fn edit_count_mono(files: Seq<(Seq<char>, Seq<Json>)>, n: int)
    requires
        0 <= n <= files.len(),
    ensures
        edit_count(files.take(n)) <= edit_count(files),
    decreases files.len() - n,
{
    if n < files.len() {
        edit_count_mono(files, n + 1);
        assert(files.take(n + 1).drop_last() =~= files.take(n));
    } else {
        assert(files.take(n) =~= files);
    }
}

/// Position of the text of a file, or the number of all texts where it has none.
pub open spec fn text_index(texts: Seq<(Seq<char>, Seq<char>)>, path: Seq<char>) -> int
    decreases texts.len(),
{
    if texts.len() == 0 || same_path(texts[0].0, path) {
        0
    } else {
        1 + text_index(texts.drop_first(), path)
    }
}

/// The texts of files after one more file was edited: what an earlier edit made of it is edited on,
/// or else `content`. None where an edit ends before it starts.
pub open spec fn with_file(
    texts: Seq<(Seq<char>, Seq<char>)>,
    path: Seq<char>,
    content: Seq<char>,
    edits: Seq<Json>,
) -> Option<Seq<(Seq<char>, Seq<char>)>> {
    let i = text_index(texts, path);
    let before = if i < texts.len() {
        texts[i].1
    } else {
        content
    };
    if !all_apply(lines(before), last_first(edits)) {
        None
    } else if i < texts.len() {
        Some(texts.update(i, (texts[i].0, edited_text(before, edits))))
    } else {
        Some(texts.push((path, edited_text(before, edits))))
    }
}

/// The texts of files after their edits, one file after the other; each file once, in the order in
/// which it is first edited. None where an edit ends before it starts.
pub open spec fn edited_files(files: Seq<(Seq<char>, Seq<Json>)>, contents: Seq<Seq<char>>) -> Option<
    Seq<(Seq<char>, Seq<char>)>,
>
    decreases files.len(),
{
    if files.len() == 0 {
        Some(Seq::empty())
    } else {
        match edited_files(files.drop_last(), contents) {
            Some(texts) => with_file(texts, files.last().0, contents[files.len() - 1], files.last().1),
            None => None,
        }
    }
}

/// The views of files with their texts.
pub open spec fn text_views(v: Seq<(String, String)>) -> Seq<(Seq<char>, Seq<char>)> {
    Seq::new(v.len(), |i: int| (v[i].0@, v[i].1@))
}

fn find_text(texts: &Vec<(String, String)>, path: &str) -> (r: usize)
    ensures
        r <= texts@.len(),
        r == text_index(text_views(texts@), path@),
{
    let ghost all = text_views(texts@);
    let mut i: usize = 0;
    assert(all.skip(0) =~= all);
    while i < texts.len()
        invariant
            0 <= i <= texts@.len(),
            all == text_views(texts@),
            text_index(all, path@) == i + text_index(all.skip(i as int), path@),
        decreases texts@.len() - i,
    {
        assert(all.skip(i as int)[0] == (texts@[i as int].0@, texts@[i as int].1@));
        assert(all.skip(i as int).drop_first() =~= all.skip(i + 1));
        if path_eq(texts[i].0.as_str(), path) {
            return i;
        }
        i = i + 1;
    }
    i
}

/// Applies edits to the texts of files, one file after the other; a file that is listed again is
/// edited on. `contents` are the texts that the listed files have. `None` where an edit ends before
/// it starts.
pub fn edit_files(files: &Vec<(String, Vec<JsonValue>)>, contents: &Vec<String>) -> (r: Option<Vec<(String, String)>>)
    requires
        files@.len() == contents@.len(),
    ensures
        match r {
            Some(texts) => edited_files(file_edit_views(files@), views(contents@)) == Some(text_views(texts@)),
            None => edited_files(file_edit_views(files@), views(contents@)) is None,
        },
{
    let ghost all = file_edit_views(files@);
    let ghost given = views(contents@);
    let mut texts: Vec<(String, String)> = Vec::new();
    let mut i: usize = 0;
    assert(all.take(0) =~= Seq::empty());
    assert(text_views(texts@) =~= Seq::empty());
    while i < files.len()
        invariant
            0 <= i <= files@.len(),
            files@.len() == contents@.len(),
            all == file_edit_views(files@),
            given == views(contents@),
            edited_files(all.take(i as int), given) == Some(text_views(texts@)),
        decreases files@.len() - i,
    {
        let path = files[i].0.as_str();
        let edits = &files[i].1;
        let ghost before = text_views(texts@);
        assert(all.take(i + 1).drop_last() =~= all.take(i as int));
        assert(all.take(i + 1).last() == (path@, jsons(edits@)));
        assert(given[i as int] == contents@[i as int]@);
        let at: usize = find_text(&texts, path);
        let known = at < texts.len();
        let content = if known {
            assert(before[at as int] == (texts@[at as int].0@, texts@[at as int].1@));
            texts[at].1.clone()
        } else {
            contents[i].clone()
        };
        if !can_apply(content.as_str(), edits) {
            proof {
                stays_none(all, given, i + 1);
            }
            return None;
        }
        let text = apply_text_edits(content.as_str(), edits);
        let ghost tv = text@;
        if known {
            let name = texts[at].0.clone();
            let ghost nv = name@;
            texts.set(at, (name, text));
            assert(text_views(texts@) =~= before.update(at as int, (nv, tv)));
        } else {
            texts.push((path.to_string(), text));
            assert(text_views(texts@) =~= before.push((path@, tv)));
        }
        i = i + 1;
    }
    assert(all.take(i as int) =~= all);
    Some(texts)
}

/// Where the first files cannot be edited, all cannot.
proof fn stays_none(files: Seq<(Seq<char>, Seq<Json>)>, contents: Seq<Seq<char>>, n: int)
    requires
        0 <= n <= files.len(),
        edited_files(files.take(n), contents) is None,
    ensures
        edited_files(files, contents) is None,
    decreases files.len() - n,
{
    if n < files.len() {
        assert(files.take(n + 1).drop_last() =~= files.take(n));
        stays_none(files, contents, n + 1);
    } else {
        assert(files.take(n) =~= files);
    }
}

// ── Laws ────────────────────────────────────────────────────────────────────

/// An edit touches no line before its first nor after its last.
pub proof fn edit_keeps_other_lines(ls: Seq<Seq<char>>, t: TextEditView)
    requires
        0 <= t.start_line <= t.end_line < ls.len(),
    ensures
        edited(ls, t).take(t.start_line) == ls.take(t.start_line),
        edited(ls, t).skip(edited(ls, t).len() - (ls.len() - t.end_line - 1)) == ls.skip(t.end_line + 1),
{
    let r = edited(ls, t);
    assert(r.take(t.start_line) =~= ls.take(t.start_line));
    assert(r.skip(r.len() - (ls.len() - t.end_line - 1)) =~= ls.skip(t.end_line + 1));
}

/// The same edits, no two of which start at the same place, give the same text in whatever order they
/// are given.
pub proof fn edits_ignore_their_order(content: Seq<char>, edits: Seq<Json>, others: Seq<Json>)
    requires
        forall|i: int| 0 <= i < edits.len() ==> others.contains(#[trigger] edits[i]),
        forall|i: int| 0 <= i < others.len() ==> edits.contains(#[trigger] others[i]),
        forall|i: int, j: int|
            0 <= i < j < edits.len() ==> {
                let a = text_edit(#[trigger] edits[i]);
                let b = text_edit(#[trigger] edits[j]);
                a.start_line != b.start_line || a.start_char != b.start_char
            },
        forall|i: int, j: int|
            0 <= i < j < others.len() ==> {
                let a = text_edit(#[trigger] others[i]);
                let b = text_edit(#[trigger] others[j]);
                a.start_line != b.start_line || a.start_char != b.start_char
            },
    ensures
        edited_text(content, edits) == edited_text(content, others),
{
    let lt = |a: TextEditView, b: TextEditView| starts_behind(a, b);
    let s = text_edits(edits);
    let t = text_edits(others);
    assert(is_order(lt));
    assert forall|i: int, j: int| 0 <= i < j < s.len() implies !tied(#[trigger] s[i], #[trigger] s[j], lt) by {
        assert(s[i] == text_edit(edits[i]) && s[j] == text_edit(edits[j]));
    }
    assert forall|i: int, j: int| 0 <= i < j < t.len() implies !tied(#[trigger] t[i], #[trigger] t[j], lt) by {
        assert(t[i] == text_edit(others[i]) && t[j] == text_edit(others[j]));
    }
    assert forall|i: int| 0 <= i < s.len() implies t.contains(#[trigger] s[i]) by {
        assert(others.contains(edits[i]));
        let k = choose|k: int| 0 <= k < others.len() && others[k] == edits[i];
        assert(t[k] == s[i]);
    }
    assert forall|i: int| 0 <= i < t.len() implies s.contains(#[trigger] t[i]) by {
        assert(edits.contains(others[i]));
        let k = choose|k: int| 0 <= k < edits.len() && edits[k] == others[i];
        assert(s[k] == t[i]);
    }
    sorting_ignores_order(s, t, lt);
}

/// A line falls into what stands before a column, counted in UTF-16 units, and the rest: the first
/// part has no more units than the column, and has more with one more character of the rest.
pub open spec fn parts_at(line: Seq<char>, column: int, front: Seq<char>, rest: Seq<char>) -> bool {
    &&& line == front + rest
    &&& utf16_len(front) <= column
    &&& rest.len() > 0 ==> utf16_len(front.push(rest[0])) > column
}

/// The parts of a line at a column are what stands before it and the rest.
proof fn cut_at_column(line: Seq<char>, column: int, front: Seq<char>, rest: Seq<char>)
    requires
        0 <= column,
        parts_at(line, column, front, rest),
    ensures
        head(line, column) == front,
        tail(line, column) == rest,
{
    let n = front.len() as int;
    utf16_cut_is_longest(line, column, n);
    assert(line.take(n) =~= front);
    if rest.len() > 0 {
        utf16_cut_is_longest(line, column, n + 1);
        assert(line.take(n + 1) =~= front.push(rest[0]));
    }
    assert(utf16_cut(line, column) == n);
    assert(head(line, column) =~= front);
    assert(tail(line, column) =~= rest);
}

/// An edit puts its new text between what stands before its start on the first line of its range and
/// what stands behind its end on the last one, whether or not these are the same line. All other lines
/// stay. Lines that the file lacks up to the end of the range count as empty.
///
/// What the new text makes of the two lines is one line where both are the same and the new text has
/// no line feed, and otherwise the lines of that text.
pub proof fn edit_replaces_its_range(
    ls: Seq<Seq<char>>,
    all: Seq<Seq<char>>,
    t: TextEditView,
    before: Seq<char>,
    behind_start: Seq<char>,
    before_end: Seq<char>,
    rest: Seq<char>,
)
    requires
        0 <= t.start_line <= t.end_line + 1,
        0 <= t.end_line,
        0 <= t.start_char,
        0 <= t.end_char,
        ls.len() <= all.len(),
        t.end_line < all.len(),
        t.start_line < all.len(),
        all.len() == ls.len() || all.len() == t.end_line + 1,
        all.take(ls.len() as int) == ls,
        forall|i: int| ls.len() <= i < all.len() ==> (#[trigger] all[i]).len() == 0,
        parts_at(all[t.start_line], t.start_char, before, behind_start),
        parts_at(all[t.end_line], t.end_char, before_end, rest),
    ensures
        edited(ls, t).take(t.start_line) == all.take(t.start_line),
        edited(ls, t).skip(edited(ls, t).len() - (all.len() - t.end_line - 1)) == all.skip(t.end_line + 1),
        t.start_line == t.end_line && !t.new_text.contains('\n') ==> edited(ls, t) == all.take(t.start_line).push(
            before + t.new_text + rest,
        ) + all.skip(t.end_line + 1),
        !(t.start_line == t.end_line && !t.new_text.contains('\n')) ==> edited(ls, t) == all.take(t.start_line)
            + lines(before + t.new_text + rest) + all.skip(t.end_line + 1),
{
    assert(extended(ls, t.end_line) =~= all) by {
        if t.end_line < ls.len() {
            assert(all.take(ls.len() as int) =~= all);
        } else {
            assert forall|i: int| 0 <= i < all.len() implies extended(ls, t.end_line)[i] == #[trigger] all[i] by {
                if i < ls.len() {
                    assert(all.take(ls.len() as int)[i] == all[i]);
                } else {
                    assert(all[i] =~= Seq::empty());
                }
            }
        }
    }
    cut_at_column(all[t.start_line], t.start_char, before, behind_start);
    cut_at_column(all[t.end_line], t.end_char, before_end, rest);
    let r = edited(ls, t);
    let text = before + t.new_text + rest;
    if t.start_line == t.end_line && !t.new_text.contains('\n') {
        assert(r =~= all.take(t.start_line).push(text) + all.skip(t.end_line + 1));
    } else {
        assert(r =~= all.take(t.start_line) + lines(text) + all.skip(t.end_line + 1));
    }
    assert(r.take(t.start_line) =~= all.take(t.start_line));
    assert(r.skip(r.len() - (all.len() - t.end_line - 1)) =~= all.skip(t.end_line + 1));
}

/// The lines are those of a text: its pieces between line feeds, without the empty one behind a line
/// feed at the end where `ended` holds.
pub open spec fn are_lines_of(ls: Seq<Seq<char>>, text: Seq<char>, ended: bool) -> bool {
    if ended {
        text.len() > 0 && text.last() == '\n' && ls == split_on(text, '\n').drop_last()
    } else {
        ls == split_on(text, '\n')
    }
}

/// The edit replaces what stands between two places of a text, `old` behind `before`, by its new text:
/// its start is the place behind `before`, and its end the place behind `old`.
pub open spec fn is_edit_of(t: TextEditView, before: Seq<char>, old: Seq<char>) -> bool {
    &&& t.start_line == split_on(before, '\n').len() - 1
    &&& t.start_char == utf16_len(split_on(before, '\n').last())
    &&& t.end_line == split_on(before + old, '\n').len() - 1
    &&& t.end_char == utf16_len(split_on(before + old, '\n').last())
}

/// What an edit leaves of the lines of its range can be told apart as lines: it stays on one line, or
/// the text that it leaves there is not empty, does not end with a line feed, and has no carriage
/// return.
pub open spec fn leaves_lines(before: Seq<char>, old: Seq<char>, new: Seq<char>, rest: Seq<char>) -> bool {
    let left = split_on(before, '\n').last() + new + split_on(rest, '\n')[0];
    (!old.contains('\n') && !new.contains('\n')) || (left.len() > 0 && left.last() != '\n' && !left.contains('\r'))
}

/// The units of a prefix and of what follows it.
proof fn parts_of_piece(front: Seq<char>, rest: Seq<char>)
    ensures
        parts_at(front + rest, utf16_len(front), front, rest),
{
    if rest.len() > 0 {
        utf16_units(front, seq![rest[0]], rest[0]);
        assert(front + seq![rest[0]] =~= front.push(rest[0]));
    }
}

/// The pieces of a text around a part of it: those before, those of the part with what stands before
/// and behind it on its lines, and those behind.
proof fn pieces_around(before: Seq<char>, mid: Seq<char>, rest: Seq<char>)
    ensures
        split_on(before, '\n').len() > 0,
        split_on(rest, '\n').len() > 0,
        split_on(before + mid + rest, '\n') == split_on(before, '\n').drop_last() + split_on(
            split_on(before, '\n').last() + mid + split_on(rest, '\n')[0],
            '\n',
        ) + split_on(rest, '\n').drop_first(),
{
    let feed = '\n';
    let pb = split_on(before, feed);
    let pm = split_on(mid, feed);
    let pr = split_on(rest, feed);
    split_add(before, mid, feed);
    split_add(before + mid, rest, feed);
    let a = pb.last();
    let d = pr[0];
    no_feeds(before);
    no_feeds(rest);
    alone(a);
    alone(d);
    split_add(a, mid, feed);
    split_add(a + mid, d, feed);
    let pam = split_on(a + mid, feed);
    let pbm = split_on(before + mid, feed);
    assert(pam =~= seq![a + pm[0]] + pm.drop_first());
    assert(pbm =~= pb.drop_last() + pam);
    assert(pbm.drop_last() =~= pb.drop_last() + pam.drop_last());
    assert(pbm.last() == pam.last());
    assert(split_on(a + mid + d, feed) =~= pam.drop_last().push(pam.last() + d));
    assert(split_on(before + mid + rest, feed) =~= pb.drop_last() + split_on(a + mid + d, feed) + pr.drop_first());
}

/// The first and the last piece of a text hold no line feed.
proof fn no_feeds(s: Seq<char>)
    ensures
        split_on(s, '\n').len() > 0,
        !split_on(s, '\n').last().contains('\n'),
        !split_on(s, '\n')[0].contains('\n'),
{
    split_is_undone(s, '\n');
    let p = split_on(s, '\n');
    assert(p[p.len() - 1] == p.last());
    assert(!p[p.len() - 1].contains('\n'));
}

/// Where the range of an edit stands among the pieces around it: on the first of them behind `a`, and
/// on the last of them before `d`.
proof fn range_in_pieces(before: Seq<char>, old: Seq<char>, a: Seq<char>, d: Seq<char>) -> (b: Seq<char>)
    requires
        split_on(before, '\n').len() > 0,
        a == split_on(before, '\n').last(),
        !d.contains('\n'),
    ensures
        ({
            let q = split_on(a + old + d, '\n');
            let pbo = split_on(before + old, '\n');
            &&& q.len() > 0
            &&& pbo.len() > 0
            &&& pbo.len() == split_on(before, '\n').len() - 1 + q.len()
            &&& q[0] == a + b
            &&& q.last() == pbo.last() + d
        }),
        !old.contains('\n') ==> split_on(a + old + d, '\n').len() == 1,
{
    let feed = '\n';
    no_feeds(before);
    alone(a);
    alone(d);
    let po = split_on(old, feed);
    split_add(before, old, feed);
    split_add(a, old, feed);
    split_add(a + old, d, feed);
    let pao = split_on(a + old, feed);
    assert(pao =~= seq![a + po[0]] + po.drop_first());
    let q = split_on(a + old + d, feed);
    assert(q =~= pao.drop_last().push(pao.last() + d));
    let pbo = split_on(before + old, feed);
    assert(pbo =~= split_on(before, feed).drop_last() + pao);
    assert(pbo.last() == pao.last());
    if !old.contains(feed) {
        alone(old);
    }
    let b = if q.len() == 1 {
        po[0] + d
    } else {
        po[0]
    };
    assert(q[0] =~= a + b);
    b
}

/// On the lines of a text an edit gives the lines of the text with its range replaced.
proof fn edit_of_lines(
    ls: Seq<Seq<char>>,
    t: TextEditView,
    before: Seq<char>,
    old: Seq<char>,
    rest: Seq<char>,
    ended: bool,
)
    requires
        is_edit_of(t, before, old),
        leaves_lines(before, old, t.new_text, rest),
        are_lines_of(ls, before + old + rest, ended),
        ended ==> rest.len() > 0,
    ensures
        are_lines_of(edited(ls, t), before + t.new_text + rest, ended),
{
    let feed = '\n';
    let new = t.new_text;
    let pb = split_on(before, feed);
    let pr = split_on(rest, feed);
    pieces_around(before, old, rest);
    pieces_around(before, new, rest);
    no_feeds(before);
    no_feeds(rest);
    let a = pb.last();
    let d = pr[0];
    let c = split_on(before + old, feed).last();
    let b = range_in_pieces(before, old, a, d);
    let q = split_on(a + old + d, feed);
    let whole = split_on(before + old + rest, feed);
    let s = t.start_line;
    let e = t.end_line;
    assert(whole == pb.drop_last() + q + pr.drop_first());
    assert(e == s + q.len() - 1);
    assert(whole[s] == q[0]);
    assert(whole[e] == q.last());
    if ended {
        assert((before + old + rest).last() == rest.last());
        last_piece_is_empty(rest);
    }
    assert(e < ls.len());
    assert(ls[s] == whole[s] && ls[e] == whole[e]);
    parts_of_piece(a, b);
    parts_of_piece(c, d);
    units_not_negative(a);
    units_not_negative(c);
    assert(ls.take(ls.len() as int) =~= ls);
    edit_replaces_its_range(ls, ls, t, a, b, c, d);
    let left = a + new + d;
    let made = split_on(left, feed);
    if s == e && !new.contains(feed) {
        alone_between(a, new, d);
    } else {
        assert(!(!old.contains(feed) && !new.contains(feed)));
        lines_are_pieces(left);
    }
    let result = split_on(before + new + rest, feed);
    assert(result == pb.drop_last() + made + pr.drop_first());
    assert(ls.take(s) =~= pb.drop_last());
    if ended {
        let behind = pr.drop_first().drop_last();
        assert(ls.skip(e + 1) =~= behind);
        assert(result.drop_last() =~= pb.drop_last() + made + behind);
        assert((before + new + rest).last() == rest.last());
        assert(edited(ls, t) =~= result.drop_last());
    } else {
        assert(ls.skip(e + 1) =~= pr.drop_first());
        assert(edited(ls, t) =~= result);
    }
}

proof fn units_not_negative(s: Seq<char>)
    ensures
        0 <= utf16_len(s),
{
    utf16_len_mono(s, s.len() as int);
    assert(s.take(s.len() as int) =~= s);
}

/// Texts without line feeds make one piece.
proof fn alone_between(a: Seq<char>, b: Seq<char>, c: Seq<char>)
    requires
        !a.contains('\n'),
        !b.contains('\n'),
        !c.contains('\n'),
    ensures
        split_on(a + b + c, '\n') == seq![a + b + c],
{
    let s = a + b + c;
    if s.contains('\n') {
        let k = choose|k: int| 0 <= k < s.len() && s[k] == '\n';
        if k < a.len() {
            assert(a[k] == '\n');
        } else if k < a.len() + b.len() {
            assert(b[k - a.len()] == '\n');
        } else {
            assert(c[k - a.len() - b.len()] == '\n');
        }
    }
    alone(s);
}

/// A text without line feeds is one piece.
proof fn alone(s: Seq<char>)
    requires
        !s.contains('\n'),
    ensures
        split_on(s, '\n') == seq![s],
{
    char_index_is_first(s, '\n');
    let n = char_index(s, '\n');
    if n < s.len() {
        assert(s[n] == '\n');
    }
}

/// Behind a line feed at the end stands an empty piece.
proof fn last_piece_is_empty(s: Seq<char>)
    requires
        s.len() > 0,
        s.last() == '\n',
    ensures
        split_on(s, '\n').len() > 1,
        split_on(s, '\n').last().len() == 0,
{
    let front = s.drop_last();
    split_add(front, seq!['\n'], '\n');
    assert(s =~= front + seq!['\n']);
    let one = seq!['\n'];
    char_index_is_first(one, '\n');
    assert(one[0] == '\n');
    assert(char_index(one, '\n') == 0);
    assert(one.take(0) =~= Seq::empty());
    assert(one.skip(1) =~= Seq::empty());
    alone(Seq::empty());
    assert(split_on(one, '\n') =~= seq![Seq::empty(), Seq::empty()]);
}

/// The first `n` parts of a text, each behind what stands before it.
pub open spec fn woven(keeps: Seq<Seq<char>>, parts: Seq<Seq<char>>, n: int) -> Seq<char>
    decreases n,
{
    if n <= 0 {
        Seq::empty()
    } else {
        woven(keeps, parts, n - 1) + keeps[n - 1] + parts[n - 1]
    }
}

/// The parts of a text from the `n`-th on, each behind what stands before it, and the rest.
pub open spec fn woven_behind(keeps: Seq<Seq<char>>, parts: Seq<Seq<char>>, rest: Seq<char>, n: int) -> Seq<char>
    decreases keeps.len() - n,
{
    if n >= keeps.len() {
        rest
    } else {
        keeps[n] + parts[n] + woven_behind(keeps, parts, rest, n + 1)
    }
}

/// The new texts of edits.
pub open spec fn new_texts(edits: Seq<Json>) -> Seq<Seq<char>> {
    Seq::new(edits.len(), |i: int| text_edit(edits[i]).new_text)
}

/// The edits replace the parts `olds` of a text, one behind the other, each behind what of the text is
/// kept before it; `rest` is what follows the last.
pub open spec fn are_edits_of(edits: Seq<Json>, keeps: Seq<Seq<char>>, olds: Seq<Seq<char>>, rest: Seq<char>) -> bool {
    &&& edits.len() == keeps.len()
    &&& edits.len() == olds.len()
    &&& forall|i: int|
        0 <= i < edits.len() ==> is_edit_of(
            text_edit(#[trigger] edits[i]),
            woven(keeps, olds, i) + keeps[i],
            olds[i],
        ) && leaves_lines(
            woven(keeps, olds, i) + keeps[i],
            olds[i],
            text_edit(edits[i]).new_text,
            woven_behind(keeps, new_texts(edits), rest, i + 1),
        )
    &&& forall|i: int, j: int|
        0 <= i < j < edits.len() ==> starts_behind(text_edit(#[trigger] edits[j]), text_edit(#[trigger] edits[i]))
}

/// The last edits of a text, applied last position first, replace the last of its parts.
proof fn edits_of_lines(
    ls: Seq<Seq<char>>,
    edits: Seq<Json>,
    keeps: Seq<Seq<char>>,
    olds: Seq<Seq<char>>,
    rest: Seq<char>,
    ended: bool,
    order: Seq<TextEditView>,
    k: int,
)
    requires
        are_edits_of(edits, keeps, olds, rest),
        are_lines_of(ls, woven(keeps, olds, edits.len() as int) + rest, ended),
        ended ==> rest.len() > 0,
        order.len() == edits.len(),
        forall|i: int| 0 <= i < order.len() ==> #[trigger] order[i] == text_edit(edits[edits.len() - 1 - i]),
        0 <= k <= edits.len(),
    ensures
        are_lines_of(
            edited_all(ls, order.take(k)),
            woven(keeps, olds, edits.len() - k) + woven_behind(keeps, new_texts(edits), rest, edits.len() - k),
            ended,
        ),
    decreases k,
{
    let n = edits.len() as int;
    let news = new_texts(edits);
    if k == 0 {
        assert(order.take(0) =~= Seq::empty());
    } else {
        edits_of_lines(ls, edits, keeps, olds, rest, ended, order, k - 1);
        let j = n - k;
        let t = text_edit(edits[j]);
        assert(order[k - 1] == t);
        assert(order.take(k).drop_last() =~= order.take(k - 1));
        assert(order.take(k).last() == t);
        let before = woven(keeps, olds, j) + keeps[j];
        let behind = woven_behind(keeps, news, rest, j + 1);
        assert(woven(keeps, olds, j + 1) + behind =~= before + olds[j] + behind);
        assert(woven(keeps, olds, j) + woven_behind(keeps, news, rest, j) =~= before + news[j] + behind);
        if ended {
            behind_is_not_empty(keeps, news, rest, j + 1);
        }
        edit_of_lines(edited_all(ls, order.take(k - 1)), t, before, olds[j], behind, ended);
    }
}

proof fn behind_is_not_empty(keeps: Seq<Seq<char>>, parts: Seq<Seq<char>>, rest: Seq<char>, n: int)
    requires
        rest.len() > 0,
    ensures
        woven_behind(keeps, parts, rest, n).len() > 0,
    decreases keeps.len() - n,
{
    if n < keeps.len() {
        behind_is_not_empty(keeps, parts, rest, n + 1);
    }
}

/// The text after edits is, as one sequence of characters, the text before them with the range of each
/// replaced by its new text; all that stands before, between and behind the ranges is kept.
///
/// This is stated of texts that have lines and no carriage returns. Where the text ends with a line
/// feed, the last edit ends before it, and the text that comes out does not end with an empty line.
pub proof fn edits_replace_their_ranges(
    edits: Seq<Json>,
    keeps: Seq<Seq<char>>,
    olds: Seq<Seq<char>>,
    rest: Seq<char>,
)
    requires
        are_edits_of(edits, keeps, olds, rest),
        ({
            let text = woven(keeps, olds, edits.len() as int) + rest;
            let after = woven_behind(keeps, new_texts(edits), rest, 0);
            &&& text.len() > 0
            &&& !text.contains('\r')
            &&& text.last() == '\n' ==> rest.len() > 0 && !(after.len() > 1 && after[after.len() - 2] == '\n')
        }),
    ensures
        edited_text(woven(keeps, olds, edits.len() as int) + rest, edits) == woven_behind(
            keeps,
            new_texts(edits),
            rest,
            0,
        ),
{
    let n = edits.len() as int;
    let text = woven(keeps, olds, n) + rest;
    let after = woven_behind(keeps, new_texts(edits), rest, 0);
    let ended = text.last() == '\n';
    let lt = |a: TextEditView, b: TextEditView| starts_behind(a, b);
    let s = text_edits(edits);
    let order = Seq::new(edits.len(), |i: int| text_edit(edits[n - 1 - i]));
    assert(is_order(lt));
    assert(in_order(order, lt)) by {
        assert forall|i: int, j: int| 0 <= i < j < order.len() implies !lt(#[trigger] order[j], #[trigger] order[i]) by {
            assert(starts_behind(text_edit(edits[n - 1 - i]), text_edit(edits[n - 1 - j])));
        }
    }
    assert forall|i: int, j: int| 0 <= i < j < s.len() implies !tied(#[trigger] s[i], #[trigger] s[j], lt) by {
        assert(starts_behind(text_edit(edits[j]), text_edit(edits[i])));
    }
    assert forall|i: int, j: int| 0 <= i < j < order.len() implies !tied(#[trigger] order[i], #[trigger] order[j], lt) by {
        assert(starts_behind(text_edit(edits[n - 1 - i]), text_edit(edits[n - 1 - j])));
    }
    assert forall|i: int| 0 <= i < s.len() implies order.contains(#[trigger] s[i]) by {
        assert(order[n - 1 - i] == s[i]);
    }
    assert forall|i: int| 0 <= i < order.len() implies s.contains(#[trigger] order[i]) by {
        assert(s[n - 1 - i] == order[i]);
    }
    sorting_ignores_order(s, order, lt);
    sorting_sorted(order, lt);
    assert(last_first(edits) == order);
    lines_are_pieces(text);
    assert(are_lines_of(lines(text), text, ended));
    edits_of_lines(lines(text), edits, keeps, olds, rest, ended, order, n);
    assert(order.take(n) =~= order);
    assert(woven(keeps, olds, 0) + after =~= after);
    let ls = edited_all(lines(text), order);
    assert(are_lines_of(ls, after, ended));
    split_is_undone(after, '\n');
    let feed = seq!['\n'];
    ends_with_feed(text);
    if ended {
        let pieces = split_on(after, '\n');
        last_piece_is_empty(after);
        assert(join(pieces, feed) == join(pieces.drop_last(), feed) + feed + pieces.last());
        let joined_text = join(ls, feed);
        assert(after =~= joined_text + feed);
        assert(joined_text.len() > 0 ==> joined_text.last() == after[after.len() - 2]);
        assert(rejoined(ls, true) =~= after);
    }
}

proof fn ends_with_feed(s: Seq<char>)
    requires
        s.len() > 0,
    ensures
        ends_with(s, seq!['\n']) == (s.last() == '\n'),
{
    assert(s.skip(s.len() - 1) =~= seq![s.last()]);
    if s.last() != '\n' {
        assert(seq![s.last()][0] != seq!['\n'][0]);
    }
}

/// An edit replaces the text of its range by its new text, and nothing else: the text after it is what
/// stood before the range, the new text, and what stood behind the range. One that replaces a text by
/// itself changes nothing.
pub proof fn edit_replaces_its_text(before: Seq<char>, old: Seq<char>, rest: Seq<char>, edit: Json)
    requires
        is_edit_of(text_edit(edit), before, old),
        leaves_lines(before, old, text_edit(edit).new_text, rest),
        ({
            let text = before + old + rest;
            let after = before + text_edit(edit).new_text + rest;
            &&& text.len() > 0
            &&& !text.contains('\r')
            &&& text.last() == '\n' ==> rest.len() > 0 && !(after.len() > 1 && after[after.len() - 2] == '\n')
        }),
    ensures
        edited_text(before + old + rest, seq![edit]) == before + text_edit(edit).new_text + rest,
        text_edit(edit).new_text == old ==> edited_text(before + old + rest, seq![edit]) == before + old + rest,
{
    let edits = seq![edit];
    let keeps = seq![before];
    let olds = seq![old];
    let new = text_edit(edit).new_text;
    let none = Seq::<char>::empty();
    reveal_with_fuel(woven, 2);
    reveal_with_fuel(woven_behind, 3);
    assert(woven(keeps, olds, 0) + keeps[0] =~= before);
    assert(woven(keeps, olds, 1) + rest =~= before + old + rest);
    assert(woven_behind(keeps, new_texts(edits), rest, 1) == rest);
    assert(woven_behind(keeps, new_texts(edits), rest, 0) =~= before + new + rest);
    edits_replace_their_ranges(edits, keeps, olds, rest);
}

/// A text edit of the protocol is read as it says: the places of its range and its new text.
pub proof fn edits_are_read_as_they_say(e: Json, start: (int, int), end: (int, int), text: Seq<char>)
    requires
        e.get3("range"@, "start"@, "line"@) == Some(Json::Int(start.0)),
        e.get3("range"@, "start"@, "character"@) == Some(Json::Int(start.1)),
        e.get3("range"@, "end"@, "line"@) == Some(Json::Int(end.0)),
        e.get3("range"@, "end"@, "character"@) == Some(Json::Int(end.1)),
        e.get("newText"@) == Some(Json::Str(text)),
        0 <= start.0 <= u32::MAX,
        0 <= start.1 <= u32::MAX,
        0 <= end.0 <= u32::MAX,
        0 <= end.1 <= u32::MAX,
    ensures
        text_edit(e).start_line == start.0,
        text_edit(e).start_char == start.1,
        text_edit(e).end_line == end.0,
        text_edit(e).end_char == end.1,
        text_edit(e).new_text == text,
{
}

/// Document changes edit the files that they name, each with all edits that they list for it and in
/// the order in which they come.
pub proof fn all_document_changes_are_edits(changes: Seq<Json>)
    ensures
        document_edits(changes) == changes.filter(|c: Json| c.get_array("edits"@) is Some).map_values(
            |c: Json|
                (
                    uri_path(
                        match c.get2("textDocument"@, "uri"@) {
                            Some(Json::Str(s)) => s,
                            _ => Seq::empty(),
                        },
                    ),
                    c.get_array("edits"@)->Some_0,
                ),
        ),
    decreases changes.len(),
{
    reveal(Seq::filter);
    let p = |c: Json| c.get_array("edits"@) is Some;
    let make = |c: Json|
        (
            uri_path(
                match c.get2("textDocument"@, "uri"@) {
                    Some(Json::Str(s)) => s,
                    _ => Seq::empty(),
                },
            ),
            c.get_array("edits"@)->Some_0,
        );
    if changes.len() > 0 {
        all_document_changes_are_edits(changes.drop_last());
        let rest = changes.drop_last().filter(p);
        if p(changes.last()) {
            assert(rest.push(changes.last()).map_values(make) =~= rest.map_values(make).push(make(changes.last())));
        }
    } else {
        assert(changes.filter(p).map_values(make) =~= Seq::empty());
    }
}

/// A plan keeps every edit: it leaves out files without edits alone, and sees each file from the project
/// root.
pub proof fn all_edits_are_planned(files: Seq<(Seq<char>, Seq<Json>)>, root: Seq<char>)
    ensures
        effective_edits(files, root) == files.filter(|f: (Seq<char>, Seq<Json>)| f.1.len() > 0).map_values(
            |f: (Seq<char>, Seq<Json>)| (joined(root, f.0), f.1),
        ),
        edit_count(effective_edits(files, root)) == edit_count(files),
        forall|i: int| 0 <= i < files.len() ==> (#[trigger] files[i]).1.len() <= edit_count(files),
    decreases files.len(),
{
    reveal(Seq::filter);
    let p = |f: (Seq<char>, Seq<Json>)| f.1.len() > 0;
    let make = |f: (Seq<char>, Seq<Json>)| (joined(root, f.0), f.1);
    if files.len() > 0 {
        let init = files.drop_last();
        all_edits_are_planned(init, root);
        let rest = init.filter(p);
        if p(files.last()) {
            assert(rest.push(files.last()).map_values(make) =~= rest.map_values(make).push(make(files.last())));
            let e = effective_edits(files, root);
            assert(e.drop_last() =~= effective_edits(init, root));
        }
        assert forall|i: int| 0 <= i < files.len() implies (#[trigger] files[i]).1.len() <= edit_count(files) by {
            if i < init.len() {
                assert(init[i] == files[i]);
            }
        }
    } else {
        assert(files.filter(p).map_values(make) =~= Seq::empty());
    }
}

/// Files that are each listed once come out in that order, each with its own edits applied to its own
/// text.
pub proof fn files_are_edited_each(files: Seq<(Seq<char>, Seq<Json>)>, contents: Seq<Seq<char>>)
    requires
        files.len() <= contents.len(),
        forall|i: int, j: int| 0 <= i < j < files.len() ==> !same_path((#[trigger] files[i]).0, (#[trigger] files[j]).0),
        forall|i: int|
            0 <= i < files.len() ==> all_apply(lines(contents[i]), last_first((#[trigger] files[i]).1)),
    ensures
        edited_files(files, contents) == Some(
            Seq::new(files.len(), |i: int| (files[i].0, edited_text(contents[i], files[i].1))),
        ),
    decreases files.len(),
{
    let all = Seq::new(files.len(), |i: int| (files[i].0, edited_text(contents[i], files[i].1)));
    if files.len() == 0 {
        assert(all =~= Seq::empty());
    } else {
        let n = files.len() - 1;
        let init = files.drop_last();
        assert forall|i: int, j: int| 0 <= i < j < init.len() implies !same_path(
            (#[trigger] init[i]).0,
            (#[trigger] init[j]).0,
        ) by {
            assert(init[i] == files[i] && init[j] == files[j]);
        }
        assert forall|i: int| 0 <= i < init.len() implies all_apply(
            lines(contents[i]),
            last_first((#[trigger] init[i]).1),
        ) by {
            assert(init[i] == files[i]);
        }
        files_are_edited_each(init, contents);
        let texts = Seq::new(init.len(), |i: int| (init[i].0, edited_text(contents[i], init[i].1)));
        assert forall|k: int| 0 <= k < texts.len() implies !same_path((#[trigger] texts[k]).0, files[n].0) by {
            assert(init[k] == files[k]);
            assert(!same_path(files[k].0, files[n].0));
        }
        no_such_text(texts, files[n].0);
        assert(files[n] == files.last());
        assert(texts.push((files[n].0, edited_text(contents[n], files[n].1))) =~= all);
    }
}

proof fn no_such_text(texts: Seq<(Seq<char>, Seq<char>)>, path: Seq<char>)
    requires
        forall|k: int| 0 <= k < texts.len() ==> !same_path((#[trigger] texts[k]).0, path),
    ensures
        text_index(texts, path) == texts.len(),
    decreases texts.len(),
{
    if texts.len() > 0 {
        let rest = texts.drop_first();
        assert forall|k: int| 0 <= k < rest.len() implies !same_path((#[trigger] rest[k]).0, path) by {
            assert(rest[k] == texts[k + 1]);
        }
        no_such_text(rest, path);
        assert(!same_path(texts[0].0, path));
    }
}

/// All edits of all files count.
pub proof fn all_edits_count(a: Seq<(Seq<char>, Seq<Json>)>, file: (Seq<char>, Seq<Json>), b: Seq<(Seq<char>, Seq<Json>)>)
    ensures
        edit_count(a + seq![file] + b) == edit_count(a) + file.1.len() + edit_count(b),
        edit_count(Seq::empty()) == 0,
    decreases b.len(),
{
    let all = a + seq![file] + b;
    if b.len() == 0 {
        assert(all.drop_last() =~= a);
        assert(all.last() == file);
    } else {
        assert(all.drop_last() =~= a + seq![file] + b.drop_last());
        assert(all.last() == b.last());
        all_edits_count(a, file, b.drop_last());
    }
}

} // verus!
