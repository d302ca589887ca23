//! Editing a file by symbol: replacing the lines of a symbol, or inserting lines around it.

use crate::json::{entries_view, field, Json, JsonValue};
use crate::commands::find::{Found, SymbolMatch};
use crate::commands::read::{candidate_views, Candidate};
use crate::lsp::symbols::{location_view, Symbol, SymbolLocation};
use crate::paths::{relative_or_self, relative_to};
use crate::sorting::seen;
use crate::text::{
    char_index_after, chars_of, decimal, is_space, join, join_front, join_is_unlines, join_strings, lines,
    lines_are_pieces, lines_make_the_text, opt_view, push_char, push_decimal, slice_views, slices, split_is_undone,
    split_lines, starts_with, str_contains_char, str_eq, str_starts_with, str_trim, trim, trim_end, trim_start,
    unlines, unlines_add, views,
};
use vstd::prelude::*;

verus! {

// ── Models ──────────────────────────────────────────────────────────────────

/// `s`, with a line feed at its end where it had none.
pub open spec fn newline_ended(s: Seq<char>) -> Seq<char> {
    if s.len() > 0 && s.last() == '\n' {
        s
    } else {
        s.push('\n')
    }
}

/// `old` with the lines from `start` up to `end` replaced by `new`.
pub open spec fn spliced(old: Seq<Seq<char>>, start: int, end: int, new: Seq<Seq<char>>) -> Seq<Seq<char>> {
    old.take(start) + new + old.skip(end)
}

/// The text whose lines are `ls`.
pub open spec fn text_of_lines(ls: Seq<Seq<char>>) -> Seq<char> {
    newline_ended(join(ls, seq!['\n']))
}

/// A line that belongs to the symbol below it: an attribute, a decorator or documentation.
pub open spec fn is_annotation(line: Seq<char>) -> bool {
    let t = trim(line);
    ||| starts_with(t, "#["@)
    ||| starts_with(t, "@"@)
    ||| starts_with(t, "///"@)
    ||| starts_with(t, "//!"@)
    ||| starts_with(t, "/**"@)
    ||| starts_with(t, "* "@)
    ||| t == "*"@
    ||| t == "*/"@
    ||| starts_with(t, "/*"@)
}

/// First line of the run of annotations that ends right above `start`; `start` where there is none.
pub open spec fn above_annotations(ls: Seq<Seq<char>>, start: int) -> int
    decreases start,
{
    if start <= 0 || !is_annotation(ls[start - 1]) {
        start
    } else {
        above_annotations(ls, start - 1)
    }
}

/// One past the last line of a symbol in a file of `n` lines.
pub open spec fn range_end(loc: SymbolLocation, n: int) -> int {
    if loc.end_line + 1 <= n {
        loc.end_line + 1
    } else {
        n
    }
}

/// The lines to insert at `at`: `new`, behind a blank line where the line at `at` is not blank.
pub open spec fn after_insertion(old: Seq<Seq<char>>, at: int, new: Seq<Seq<char>>) -> Seq<Seq<char>> {
    if at < old.len() && trim(old[at]).len() > 0 {
        seq![Seq::<char>::empty()] + new
    } else {
        new
    }
}

// ── Splicing ────────────────────────────────────────────────────────────────

/// A changed file: its new text and what is answered to the client.
pub struct FileEdit {
    pub content: String,
    pub response: JsonValue,
}

/// Ensures a trailing newline in content if missing.
pub fn ensure_trailing_newline(s: &str) -> (r: String)
    ensures
        r@ == newline_ended(s@),
{
    let v = chars_of(s);
    let mut r = s.to_string();
    if v.len() == 0 || v[v.len() - 1] != '\n' {
        push_char(&mut r, '\n');
    }
    r
}

/// Replaces the lines from `start` up to `end` by `new`.
pub fn splice_lines(old: &Vec<String>, start: usize, end: usize, new: &Vec<String>) -> (r: Vec<String>)
    requires
        start <= end <= old@.len(),
    ensures
        r@ == old@.take(start as int) + new@ + old@.skip(end as int),
        views(r@) == spliced(views(old@), start as int, end as int, views(new@)),
{
    let mut r: Vec<String> = Vec::new();
    let mut i: usize = 0;
    while i < start
        invariant
            0 <= i <= start <= old@.len(),
            r@ == old@.take(i as int),
        decreases start - i,
    {
        r.push(old[i].clone());
        i = i + 1;
        assert(old@.take(i as int) =~= old@.take(i - 1).push(old@[i - 1]));
    }
    let mut j: usize = 0;
    assert(r@ =~= old@.take(start as int) + new@.take(0));
    while j < new.len()
        invariant
            0 <= j <= new@.len(),
            r@ == old@.take(start as int) + new@.take(j as int),
        decreases new@.len() - j,
    {
        r.push(new[j].clone());
        j = j + 1;
        assert(r@ =~= old@.take(start as int) + new@.take(j as int));
    }
    assert(new@.take(j as int) =~= new@);
    let mut k: usize = end;
    assert(r@ =~= old@.take(start as int) + new@ + old@.subrange(end as int, k as int));
    while k < old.len()
        invariant
            end <= k <= old@.len(),
            r@ == old@.take(start as int) + new@ + old@.subrange(end as int, k as int),
        decreases old@.len() - k,
    {
        r.push(old[k].clone());
        k = k + 1;
        assert(r@ =~= old@.take(start as int) + new@ + old@.subrange(end as int, k as int));
    }
    assert(old@.subrange(end as int, k as int) =~= old@.skip(end as int));
    assert(views(r@) =~= spliced(views(old@), start as int, end as int, views(new@)));
    r
}

/// The text whose lines are `ls`.
fn text_from_lines(ls: &Vec<String>) -> (r: String)
    ensures
        r@ == text_of_lines(views(ls@)),
{
    proof {
        reveal_strlit("\n");
        assert("\n"@ =~= seq!['\n']);
    }
    let joined = join_strings(ls, "\n");
    ensure_trailing_newline(joined.as_str())
}

/// Finds the line index to insert before, walking upward past attributes and doc comments.
pub fn find_insert_before_line(lines: &[&str], symbol_start: usize) -> (r: usize)
    requires
        symbol_start <= lines@.len(),
    ensures
        r == above_annotations(slice_views(lines@), symbol_start as int),
        r <= symbol_start,
{
    let mut cursor: usize = symbol_start;
    while cursor > 0
        invariant
            cursor <= symbol_start <= lines@.len(),
            above_annotations(slice_views(lines@), symbol_start as int) == above_annotations(
                slice_views(lines@),
                cursor as int,
            ),
        decreases cursor,
    {
        let trimmed = str_trim(lines[cursor - 1]);
        let t = trimmed.as_str();
        let is_attr_or_doc = str_starts_with(t, "#[") || str_starts_with(t, "@") || str_starts_with(t, "///")
            || str_starts_with(t, "//!") || str_starts_with(t, "/**") || str_starts_with(t, "* ") || str_eq(t, "*")
            || str_eq(t, "*/") || str_starts_with(t, "/*");
        assert(slice_views(lines@)[cursor - 1] == lines@[cursor - 1]@);
        if !is_attr_or_doc {
            return cursor;
        }
        cursor = cursor - 1;
    }
    cursor
}

/// Replaces a symbol's lines in `content` by the lines of `code`.
///
/// `Err` holds the message for a symbol that starts past the end of the file.
pub fn handle_edit_replace(
    name: &str,
    code: &str,
    content: &str,
    location: &SymbolLocation,
    abs_path: &str,
    project_root: &str,
) -> (r: Result<FileEdit, String>)
    requires
        location.start_line <= location.end_line + 1 || location.start_line >= lines(content@).len(),
    ensures
        match r {
            Ok(e) => {
                let old = lines(content@);
                let new = lines(code@);
                let start = location.start_line as int;
                let end = range_end(*location, old.len() as int);
                let count = end - start;
                &&& start < old.len()
                &&& e.content@ == text_of_lines(spliced(old, start, end, new))
                &&& e.content@ == text_of_lines(
                    lines(content@).take(location.start_line as int) + lines(code@) + lines(content@).skip(
                        if location.end_line < lines(content@).len() {
                            location.end_line + 1
                        } else {
                            lines(content@).len() as int
                        },
                    ),
                )
                &&& e.response@ == Json::Obj(
                    seq![
                        ("path"@, Json::Str(relative_or_self(abs_path@, project_root@))),
                        ("symbol"@, Json::Str(name@)),
                        ("from"@, Json::Int(start + 1)),
                        ("to"@, Json::Int(end)),
                        ("lines_before"@, Json::Int(count)),
                        ("lines_after"@, Json::Int(new.len() as int)),
                    ],
                )
            },
            Err(m) => location.start_line >= lines(content@).len() && m@ == "symbol range out of bounds in "@
                + abs_path@,
        },
{
    let old = split_lines(content);
    assert(views(old@).len() == old@.len());
    let start: usize = location.start_line as usize;
    let past: u64 = location.end_line as u64 + 1;
    let end: usize = if past <= old.len() as u64 {
        past as usize
    } else {
        old.len()
    };
    if start >= old.len() {
        let mut m = "symbol range out of bounds in ".to_string();
        m.append(abs_path);
        return Err(m);
    }
    let new = split_lines(code);
    assert(views(new@).len() == new@.len());
    let changed = splice_lines(&old, start, end, &new);
    assert(range_end(*location, views(old@).len() as int) == end);
    let text = text_from_lines(&changed);
    let rel = relative_to(abs_path, project_root);
    let count: usize = end - start;
    let fields = vec![
        field("path", JsonValue::String(rel)),
        field("symbol", JsonValue::str(name)),
        field("from", JsonValue::number(start + 1)),
        field("to", JsonValue::number(end)),
        field("lines_before", JsonValue::number(count)),
        field("lines_after", JsonValue::number(new.len())),
    ];
    assert(entries_view(fields@) =~= seq![
        ("path"@, Json::Str(relative_or_self(abs_path@, project_root@))),
        ("symbol"@, Json::Str(name@)),
        ("from"@, Json::Int(start + 1)),
        ("to"@, Json::Int(end as int)),
        ("lines_before"@, Json::Int(count as int)),
        ("lines_after"@, Json::Int(new@.len() as int)),
    ]);
    Ok(FileEdit { content: text, response: JsonValue::object(fields) })
}

/// The answer to an insertion.
pub open spec fn insert_response(rel: Seq<char>, name: Seq<char>, op: Seq<char>, at: int, added: int) -> Json {
    Json::Obj(
        seq![
            ("path"@, Json::Str(rel)),
            ("symbol"@, Json::Str(name)),
            ("operation"@, Json::Str(op)),
            ("inserted_at"@, Json::Int(at + 1)),
            ("lines_added"@, Json::Int(added)),
        ],
    )
}

fn make_insert_response(rel: String, name: &str, op: &str, at: usize, added: usize) -> (r: JsonValue)
    requires
        at <= u32::MAX + 1,
    ensures
        r@ == insert_response(rel@, name@, op@, at as int, added as int),
{
    let fields = vec![
        field("path", JsonValue::String(rel)),
        field("symbol", JsonValue::str(name)),
        field("operation", JsonValue::str(op)),
        field("inserted_at", JsonValue::UInt(at as u64 + 1)),
        field("lines_added", JsonValue::number(added)),
    ];
    assert(entries_view(fields@) =~= insert_response(rel@, name@, op@, at as int, added as int)->Obj_0);
    JsonValue::object(fields)
}

/// Inserts the lines of `code` right after a symbol's last line, with a blank line between them
/// and what precedes them where the line that follows is not blank.
pub fn handle_edit_insert_after(
    name: &str,
    code: &str,
    content: &str,
    location: &SymbolLocation,
    abs_path: &str,
    project_root: &str,
) -> (r: FileEdit)
    ensures
        ({
            let old = lines(content@);
            let new = lines(code@);
            let at = range_end(*location, old.len() as int);
            &&& r.content@ == text_of_lines(spliced(old, at, at, after_insertion(old, at, new)))
            &&& r.response@ == insert_response(
                relative_or_self(abs_path@, project_root@),
                name@,
                "after"@,
                at,
                new.len() as int,
            )
        }),
        location.end_line + 1 < lines(content@).len() ==> r.content@ == text_of_lines(
            lines(content@).take(location.end_line + 1) + (if is_blank(lines(content@)[location.end_line + 1]) {
                Seq::empty()
            } else {
                seq![Seq::<char>::empty()]
            }) + lines(code@) + lines(content@).skip(location.end_line + 1),
        ),
        location.end_line + 1 >= lines(content@).len() ==> r.content@ == text_of_lines(lines(content@) + lines(code@)),
{
    let old = split_lines(content);
    assert(views(old@).len() == old@.len());
    let past: u64 = location.end_line as u64 + 1;
    let at: usize = if past <= old.len() as u64 {
        past as usize
    } else {
        old.len()
    };
    let new = split_lines(code);
    assert(views(new@).len() == new@.len());
    let mut inserted: Vec<String> = Vec::new();
    if at < old.len() {
        let next = str_trim(old[at].as_str());
        assert(views(old@)[at as int] == old@[at as int]@);
        if !next.as_str().is_empty() {
            inserted.push(String::new());
        }
    }
    let ghost sep = inserted@;
    let mut j: usize = 0;
    assert(new@.take(0) =~= Seq::empty());
    assert(inserted@ =~= sep + new@.take(0));
    while j < new.len()
        invariant
            0 <= j <= new@.len(),
            inserted@ == sep + new@.take(j as int),
        decreases new@.len() - j,
    {
        inserted.push(new[j].clone());
        j = j + 1;
        assert(inserted@ =~= sep + new@.take(j as int));
    }
    assert(new@.take(j as int) =~= new@);
    assert(views(inserted@) =~= after_insertion(views(old@), at as int, views(new@)));
    proof {
        code_follows_the_symbol(views(old@), views(new@), location.end_line as int);
    }
    let changed = splice_lines(&old, at, at, &inserted);
    let text = text_from_lines(&changed);
    let rel = relative_to(abs_path, project_root);
    FileEdit { content: text, response: make_insert_response(rel, name, "after", at, new.len()) }
}

/// Inserts the lines of `code` and a blank line before a symbol, above its attributes, decorators
/// and doc comments.
pub fn handle_edit_insert_before(
    name: &str,
    code: &str,
    content: &str,
    location: &SymbolLocation,
    abs_path: &str,
    project_root: &str,
) -> (r: FileEdit)
    requires
        location.start_line <= lines(content@).len(),
    ensures
        ({
            let old = lines(content@);
            let new = lines(code@);
            let at = above_annotations(old, location.start_line as int);
            &&& r.content@ == text_of_lines(spliced(old, at, at, new.push(Seq::empty())))
            &&& r.content@ == text_of_lines(old.take(at) + lines(code@) + seq![Seq::<char>::empty()] + old.skip(at))
            &&& r.response@ == insert_response(
                relative_or_self(abs_path@, project_root@),
                name@,
                "before"@,
                at,
                new.len() as int,
            )
        }),
{
    let old = split_lines(content);
    assert(views(old@).len() == old@.len());
    let borrowed = slices(&old);
    let symbol_start: usize = location.start_line as usize;
    let at: usize = find_insert_before_line(borrowed.as_slice(), symbol_start);
    let mut new = split_lines(code);
    assert(views(new@).len() == new@.len());
    let count: usize = new.len();
    let ghost bare = new@;
    new.push(String::new());
    assert(views(new@) =~= views(bare).push(Seq::empty()));
    let changed = splice_lines(&old, at, at, &new);
    assert(spliced(views(old@), at as int, at as int, views(new@)) =~= views(old@).take(at as int) + views(bare)
        + seq![Seq::<char>::empty()] + views(old@).skip(at as int));
    let text = text_from_lines(&changed);
    let rel = relative_to(abs_path, project_root);
    FileEdit { content: text, response: make_insert_response(rel, name, "before", at, count) }
}

// ── Output ──────────────────────────────────────────────────────────────────

/// The line that reports a replacement.
pub open spec fn replace_line(d: Json) -> Seq<char> {
    "replaced "@ + d.str_or("path"@, "?"@) + ":"@ + decimal(d.u64_or("from"@, 0) as nat) + "-"@ + decimal(
        d.u64_or("to"@, 0) as nat,
    ) + " "@ + d.str_or("symbol"@, "?"@) + " ("@ + decimal(d.u64_or("lines_before"@, 0) as nat) + " lines → "@
        + decimal(d.u64_or("lines_after"@, 0) as nat) + " lines)"@
}

/// Formats an edit replace response for compact output.
pub fn format_replace(data: &JsonValue) -> (r: String)
    ensures
        r@ == replace_line(data@),
{
    let mut out = "replaced ".to_string();
    out.append(data.str_or("path", "?").as_str());
    out.append(":");
    push_decimal(&mut out, data.u64_or("from", 0));
    out.append("-");
    push_decimal(&mut out, data.u64_or("to", 0));
    out.append(" ");
    out.append(data.str_or("symbol", "?").as_str());
    out.append(" (");
    push_decimal(&mut out, data.u64_or("lines_before", 0));
    out.append(" lines → ");
    push_decimal(&mut out, data.u64_or("lines_after", 0));
    out.append(" lines)");
    out
}

/// The line that reports an insertion.
pub open spec fn insert_line(d: Json, kind: Seq<char>) -> Seq<char> {
    "inserted "@ + kind + " "@ + d.str_or("path"@, "?"@) + ":"@ + decimal(d.u64_or("inserted_at"@, 0) as nat)
        + " "@ + d.str_or("symbol"@, "?"@) + " ("@ + decimal(d.u64_or("lines_added"@, 0) as nat)
        + " lines added at line "@ + decimal(d.u64_or("inserted_at"@, 0) as nat) + ")"@
}

/// Formats an insert response for compact output.
pub fn format_insert(data: &JsonValue, kind: &str) -> (r: String)
    ensures
        r@ == insert_line(data@, kind@),
{
    let at: u64 = data.u64_or("inserted_at", 0);
    let mut out = "inserted ".to_string();
    out.append(kind);
    out.append(" ");
    out.append(data.str_or("path", "?").as_str());
    out.append(":");
    push_decimal(&mut out, at);
    out.append(" ");
    out.append(data.str_or("symbol", "?").as_str());
    out.append(" (");
    push_decimal(&mut out, data.u64_or("lines_added", 0));
    out.append(" lines added at line ");
    push_decimal(&mut out, at);
    out.append(")");
    out
}

// ── Laws ────────────────────────────────────────────────────────────────────

/// A line of spaces alone.
pub open spec fn is_blank(line: Seq<char>) -> bool {
    forall|i: int| 0 <= i < line.len() ==> is_space(#[trigger] line[i])
}

/// A text is trimmed to nothing just where it is blank.
pub proof fn blank_is_trimmed(s: Seq<char>)
    ensures
        is_blank(s) <==> trim(s).len() == 0,
{
    blank_start(s);
    let t = trim_start(s);
    blank_end(t);
    if !is_blank(s) {
        assert(t.len() > 0 && !is_space(t[0]));
        assert(!is_blank(t));
    } else {
        assert(is_blank(t)) by {
            assert(t.len() == 0);
        }
    }
}

proof fn blank_start(s: Seq<char>)
    ensures
        is_blank(s) ==> trim_start(s).len() == 0,
        !is_blank(s) ==> trim_start(s).len() > 0 && !is_space(trim_start(s)[0]),
    decreases s.len(),
{
    if s.len() > 0 && is_space(s[0]) {
        let t = s.drop_first();
        blank_start(t);
        assert(is_blank(s) == is_blank(t)) by {
            if is_blank(t) {
                assert forall|i: int| 0 <= i < s.len() implies is_space(#[trigger] s[i]) by {
                    if i > 0 {
                        assert(s[i] == t[i - 1]);
                    }
                }
            }
            if is_blank(s) {
                assert forall|i: int| 0 <= i < t.len() implies is_space(#[trigger] t[i]) by {
                    assert(t[i] == s[i + 1]);
                }
            }
        }
    }
}

proof fn blank_end(s: Seq<char>)
    ensures
        is_blank(s) <==> trim_end(s).len() == 0,
    decreases s.len(),
{
    if s.len() > 0 && is_space(s.last()) {
        let t = s.drop_last();
        blank_end(t);
        assert(is_blank(s) == is_blank(t)) by {
            if is_blank(t) {
                assert forall|i: int| 0 <= i < s.len() implies is_space(#[trigger] s[i]) by {
                    if i < t.len() {
                        assert(s[i] == t[i]);
                    }
                }
            }
            if is_blank(s) {
                assert forall|i: int| 0 <= i < t.len() implies is_space(#[trigger] t[i]) by {
                    assert(t[i] == s[i]);
                }
            }
        }
    } else if s.len() > 0 {
        assert(!is_space(s[s.len() - 1]));
    }
}

/// Code that is inserted after a symbol stands, all of its lines in one run, behind the symbol's last
/// line: right behind it where nothing or a blank line follows, and otherwise behind one empty line.
/// All lines of the file stay, those of the symbol and before it in front of the code and the others
/// behind it.
pub proof fn code_follows_the_symbol(old: Seq<Seq<char>>, new: Seq<Seq<char>>, end_line: int)
    requires
        0 <= end_line,
    ensures
        end_line + 1 < old.len() ==> spliced(old, end_line + 1, end_line + 1, after_insertion(old, end_line + 1, new))
            == old.take(end_line + 1) + (if is_blank(old[end_line + 1]) {
            Seq::empty()
        } else {
            seq![Seq::<char>::empty()]
        }) + new + old.skip(end_line + 1),
        end_line + 1 < old.len() ==> spliced(
            old,
            end_line + 1,
            end_line + 1,
            after_insertion(old, end_line + 1, new),
        ).len() == old.len() + new.len() + if is_blank(old[end_line + 1]) {
            0int
        } else {
            1
        },
        spliced(old, old.len() as int, old.len() as int, after_insertion(old, old.len() as int, new)) == old + new,
{
    let n = old.len() as int;
    if end_line + 1 < n {
        let at = end_line + 1;
        blank_is_trimmed(old[at]);
        let sep = if is_blank(old[at]) {
            Seq::empty()
        } else {
            seq![Seq::<char>::empty()]
        };
        assert(spliced(old, at, at, after_insertion(old, at, new)) =~= old.take(at) + sep + new + old.skip(at));
    }
    assert(spliced(old, n, n, after_insertion(old, n, new)) =~= old + new);
}

/// The text of lines writes each of them with a line feed behind it. An empty line at the end is not
/// written where others stand before it, and no line at all is written as an empty one.
pub proof fn lines_are_written(ls: Seq<Seq<char>>)
    requires
        forall|i: int| 0 <= i < ls.len() ==> !(#[trigger] ls[i]).contains('\n'),
    ensures
        ls.len() > 0 && ls.last().len() > 0 ==> text_of_lines(ls) == unlines(ls),
        ls.len() > 1 && ls.last().len() == 0 ==> text_of_lines(ls) == unlines(ls.drop_last()),
        ls.len() == 1 && ls.last().len() == 0 ==> text_of_lines(ls) == unlines(ls),
        ls.len() == 0 ==> text_of_lines(ls) == seq!['\n'],
{
    let s = join(ls, seq!['\n']);
    if ls.len() == 0 {
        assert(text_of_lines(ls) =~= seq!['\n']);
    } else {
        join_is_unlines(ls);
        let last = ls.last();
        assert(last == ls[ls.len() - 1]);
        if last.len() > 0 {
            assert(s.last() == last.last());
            assert(last[last.len() - 1] == last.last());
        } else if ls.len() > 1 {
            join_is_unlines(ls.drop_last());
            assert(s =~= join(ls.drop_last(), seq!['\n']).push('\n'));
        }
    }
}

/// Replacing lines of a text by code keeps the text before and behind them as it is, and puts the code
/// between them, with a line feed at its end. The text ends with a line feed, it and the code have no
/// carriage returns, and the last line that comes out is not empty.
pub proof fn code_replaces_the_lines(content: Seq<char>, code: Seq<char>, start: int, end: int)
    requires
        content.len() > 0,
        content.last() == '\n',
        !content.contains('\r'),
        !code.contains('\r'),
        code.len() > 0,
        0 <= start <= end <= lines(content).len(),
        ({
            let all = lines(content).take(start) + lines(code) + lines(content).skip(end);
            all.len() > 0 && all.last().len() > 0
        }),
    ensures
        content == unlines(lines(content).take(start)) + unlines(lines(content).subrange(start, end)) + unlines(
            lines(content).skip(end),
        ),
        text_of_lines(spliced(lines(content), start, end, lines(code))) == unlines(lines(content).take(start))
            + newline_ended(code) + unlines(lines(content).skip(end)),
        newline_ended(code) == if code.last() == '\n' {
            code
        } else {
            code.push('\n')
        },
{
    let old = lines(content);
    let new = lines(code);
    lines_make_the_text(content);
    lines_make_the_text(code);
    lines_are_pieces(content);
    lines_are_pieces(code);
    split_is_undone(code, '\n');
    let front = old.take(start);
    let gone = old.subrange(start, end);
    let back = old.skip(end);
    unlines_add(front + gone, back);
    unlines_add(front, gone);
    assert(front + gone + back =~= old);
    join_is_unlines(old);
    assert(content =~= unlines(old));
    assert(new.len() > 0);
    join_is_unlines(new);
    assert(newline_ended(code) =~= unlines(new));
    let all = front + new + back;
    assert(spliced(old, start, end, new) =~= all);
    assert forall|i: int| 0 <= i < all.len() implies !(#[trigger] all[i]).contains('\n') by {
        if i < start {
            assert(all[i] == old[i]);
        } else if i < start + new.len() {
            assert(all[i] == new[i - start]);
        } else {
            assert(all[i] == old[end + (i - start - new.len())]);
        }
    }
    lines_are_written(all);
    unlines_add(front + new, back);
    unlines_add(front, new);
}

/// Code that is inserted before a symbol stands above the run of annotations that ends right above the
/// symbol: all lines between it and the symbol are annotations, and the line before it is none.
pub proof fn annotations_stay_with_their_symbol(ls: Seq<Seq<char>>, start: int)
    requires
        0 <= start <= ls.len(),
    ensures
        0 <= above_annotations(ls, start) <= start,
        forall|i: int| above_annotations(ls, start) <= i < start ==> is_annotation(#[trigger] ls[i]),
        above_annotations(ls, start) > 0 ==> !is_annotation(ls[above_annotations(ls, start) - 1]),
    decreases start,
{
    if start > 0 && is_annotation(ls[start - 1]) {
        annotations_stay_with_their_symbol(ls, start - 1);
    }
}

/// An annotation starts, behind spaces, with `#[`, `@`, `///`, `//!` or `/*`, or it is a line of a block
/// comment: a star and a space with what follows them, a lone star, or the end of the block.
pub proof fn annotations_are_told_by_their_start(line: Seq<char>)
    ensures
        ({
            let t = trim(line);
            is_annotation(line) <==> {
                ||| t.len() >= 2 && t[0] == '#' && t[1] == '['
                ||| t.len() >= 1 && t[0] == '@'
                ||| t.len() >= 3 && t[0] == '/' && t[1] == '/' && (t[2] == '/' || t[2] == '!')
                ||| t.len() >= 2 && t[0] == '/' && t[1] == '*'
                ||| t.len() >= 2 && t[0] == '*' && t[1] == ' '
                ||| t.len() == 1 && t[0] == '*'
                ||| t.len() == 2 && t[0] == '*' && t[1] == '/'
            }
        }),
{
    let t = trim(line);
    reveal_strlit("#[");
    reveal_strlit("@");
    reveal_strlit("///");
    reveal_strlit("//!");
    reveal_strlit("/**");
    reveal_strlit("* ");
    reveal_strlit("*");
    reveal_strlit("*/");
    reveal_strlit("/*");
    starts_with_chars(t, "#["@);
    starts_with_chars(t, "@"@);
    starts_with_chars(t, "///"@);
    starts_with_chars(t, "//!"@);
    starts_with_chars(t, "/**"@);
    starts_with_chars(t, "* "@);
    starts_with_chars(t, "/*"@);
    if t.len() == 1 && t[0] == '*' {
        assert(t =~= "*"@);
    }
    if t.len() == 2 && t[0] == '*' && t[1] == '/' {
        assert(t =~= "*/"@);
    }
}

/// A text starts with another just where it has its characters in front.
pub proof fn starts_with_chars(s: Seq<char>, p: Seq<char>)
    ensures
        starts_with(s, p) <==> p.len() <= s.len() && forall|i: int| 0 <= i < p.len() ==> s[i] == #[trigger] p[i],
        p.len() == 1 ==> (starts_with(s, p) <==> s.len() >= 1 && s[0] == p[0]),
        p.len() == 2 ==> (starts_with(s, p) <==> s.len() >= 2 && s[0] == p[0] && s[1] == p[1]),
        p.len() == 3 ==> (starts_with(s, p) <==> s.len() >= 3 && s[0] == p[0] && s[1] == p[1] && s[2] == p[2]),
{
    if p.len() <= s.len() {
        if forall|i: int| 0 <= i < p.len() ==> s[i] == #[trigger] p[i] {
            assert(s.take(p.len() as int) =~= p);
            assert(s.subrange(0, p.len() as int) =~= p);
        } else if starts_with(s, p) {
            let i = choose|i: int| 0 <= i < p.len() && s[i] != #[trigger] p[i];
            assert(s.take(p.len() as int)[i] == s[i]);
            assert(s.subrange(0, p.len() as int)[i] == s[i]);
        }
    }
}

/// A line that reads back as it was written: it holds no line feed and ends with no carriage
/// return.
pub open spec fn is_line(s: Seq<char>) -> bool {
    !s.contains('\n') && (s.len() > 0 ==> s.last() != '\r')
}

/// Lines that each read back, joined and closed by a line feed, are the lines of that text.
pub proof fn joined_lines_read_back(ls: Seq<Seq<char>>)
    requires
        ls.len() > 0,
        forall|i: int| 0 <= i < ls.len() ==> is_line(#[trigger] ls[i]),
    ensures
        lines(join(ls, seq!['\n']).push('\n')) == ls,
    decreases ls.len(),
{
    let sep = seq!['\n'];
    let first = ls[0];
    let s = join(ls, sep).push('\n');
    assert(is_line(ls[0]));
    if ls.len() == 1 {
        assert(s =~= first + seq!['\n'] + Seq::empty());
        char_index_after(first, Seq::empty(), '\n');
        assert(s.take(first.len() as int) =~= first);
        assert(s.skip(first.len() as int + 1) =~= Seq::empty());
        assert(lines(Seq::<char>::empty()) =~= Seq::empty());
        assert(lines(s) =~= ls);
    } else {
        let rest = ls.drop_first();
        assert forall|i: int| 0 <= i < rest.len() implies is_line(#[trigger] rest[i]) by {
            assert(rest[i] == ls[i + 1]);
        }
        joined_lines_read_back(rest);
        join_front(ls, sep);
        let tail = join(rest, sep).push('\n');
        assert(s =~= first + seq!['\n'] + tail);
        char_index_after(first, tail, '\n');
        assert(s.take(first.len() as int) =~= first);
        assert(s.skip(first.len() as int + 1) =~= tail);
        assert(lines(s) =~= ls);
    }
}

/// A text of lines that each read back, the last of them not empty, has just these lines.
pub proof fn edited_text_reads_back(ls: Seq<Seq<char>>)
    requires
        ls.len() > 0,
        ls.last().len() > 0,
        forall|i: int| 0 <= i < ls.len() ==> is_line(#[trigger] ls[i]),
    ensures
        lines(text_of_lines(ls)) == ls,
{
    let s = join(ls, seq!['\n']);
    let last = ls.last();
    joined_lines_read_back(ls);
    assert(is_line(ls[ls.len() - 1]));
    assert(last[last.len() - 1] == last.last());
    assert(s.last() == last.last());
}

/// Ensuring the newline twice is ensuring it once.
pub proof fn newline_ended_once(s: Seq<char>)
    ensures
        newline_ended(newline_ended(s)) == newline_ended(s),
        newline_ended(s).last() == '\n',
{
}

/// A replacement keeps every line outside the range, in place before it and in order after it.
pub proof fn splice_keeps_the_rest(old: Seq<Seq<char>>, start: int, end: int, new: Seq<Seq<char>>)
    requires
        0 <= start <= end <= old.len(),
    ensures
        spliced(old, start, end, new).take(start) == old.take(start),
        spliced(old, start, end, new).subrange(start, start + new.len()) == new,
        spliced(old, start, end, new).skip(start + new.len()) == old.skip(end),
        spliced(old, start, end, new).len() == old.len() - (end - start) + new.len(),
{
    let r = spliced(old, start, end, new);
    assert(r.take(start) =~= old.take(start));
    assert(r.subrange(start, start + new.len()) =~= new);
    assert(r.skip(start + new.len()) =~= old.skip(end));
}

// ── Locating the symbol ─────────────────────────────────────────────────────

/// What came of resolving the symbol in a candidate's file: first by the name before the dot, then,
/// for a dotted name, by the whole name.
pub struct Resolution {
    pub owner: Result<Symbol, Seq<char>>,
    pub member: Result<Symbol, Seq<char>>,
}

/// The places of symbols.
pub open spec fn symbol_places(s: Seq<Found>) -> Seq<(Seq<char>, u32)> {
    Seq::new(s.len(), |i: int| (s[i].path, s[i].line))
}

/// The symbol that is edited, with the path of its file: the first candidate whose file has the
/// name before the dot. For a dotted name that file has to have the member. Without any candidate
/// the last failure counts.
pub open spec fn located(
    name: Seq<char>,
    queue: Seq<(Seq<char>, u32)>,
    tries: Seq<Resolution>,
    i: int,
    err: Option<Seq<char>>,
) -> Result<(Seq<char>, Symbol), Seq<char>>
    decreases queue.len() - i,
{
    if i >= queue.len() {
        Err(
            match err {
                Some(e) => e,
                None => "symbol '"@ + name + "' not found"@,
            },
        )
    } else {
        match tries[i].owner {
            Err(e) => located(name, queue, tries, i + 1, Some(e)),
            Ok(s) => if name.contains('.') {
                match tries[i].member {
                    Ok(t) => Ok((queue[i].0, t)),
                    Err(e) => Err(e),
                }
            } else {
                Ok((queue[i].0, s))
            },
        }
    }
}

/// What to do next to locate a symbol.
pub enum LocateStep {
    /// Resolve the name before the dot in this file, near this line, counted from 0.
    Try { path: String, hint_line: Option<u32> },
    /// The symbol is not there.
    Failed(String),
}

/// What a resolved candidate means.
pub enum LocateVerdict {
    /// Go on with the next step.
    Next,
    /// Resolve the whole name in the same file; what comes of that is the answer.
    ResolveMember,
    /// This is the symbol.
    Located(SymbolLocation),
}

/// Locates the symbol to edit by trying candidates one after the other.
pub struct SymbolLocator {
    pub name: String,
    pub queue: Vec<Candidate>,
    pub at: usize,
    pub last_err: Option<String>,
}

impl SymbolLocator {
    /// The symbol in the end, given what comes of each candidate.
    pub open spec fn outcome(self, tries: Seq<Resolution>) -> Result<(Seq<char>, Symbol), Seq<char>> {
        located(self.name@, candidate_views(self.queue@), tries, self.at as int, opt_view(self.last_err))
    }

    /// Starts to locate a symbol.
    pub fn new(name: &str, candidates: &Vec<SymbolMatch>) -> (r: SymbolLocator)
        ensures
            r.at == 0,
            r.name@ == name@,
            candidate_views(r.queue@) == symbol_places(seen(candidates@)),
            r.last_err is None,
    {
        let ghost all = symbol_places(seen(candidates@));
        let mut queue: Vec<Candidate> = Vec::new();
        let mut i: usize = 0;
        assert(candidate_views(queue@) =~= all.take(0));
        while i < candidates.len()
            invariant
                0 <= i <= candidates@.len(),
                all == symbol_places(seen(candidates@)),
                candidate_views(queue@) == all.take(i as int),
            decreases candidates@.len() - i,
        {
            let ghost before = candidate_views(queue@);
            queue.push(Candidate { path: candidates[i].path.clone(), line: candidates[i].line });
            assert(all[i as int] == (candidates@[i as int].path@, candidates@[i as int].line));
            assert(candidate_views(queue@) =~= before.push(all[i as int]));
            assert(all.take(i + 1) =~= all.take(i as int).push(all[i as int]));
            i = i + 1;
        }
        assert(all.take(i as int) =~= all);
        SymbolLocator { name: name.to_string(), queue, at: 0, last_err: None }
    }

    /// The candidate to try next, or why the symbol is not there.
    pub fn next_step(&self) -> (r: LocateStep)
        requires
            self.at <= self.queue@.len(),
        ensures
            match r {
                LocateStep::Try { path, hint_line } => {
                    let place = candidate_views(self.queue@)[self.at as int];
                    &&& self.at < self.queue@.len()
                    &&& path@ == place.0
                    &&& hint_line == (if place.1 > 0 {
                        Some((place.1 - 1) as u32)
                    } else {
                        None
                    })
                },
                LocateStep::Failed(m) => self.at == self.queue@.len() && forall|t: Seq<Resolution>| #[trigger]
                    self.outcome(t) == Err::<(Seq<char>, Symbol), Seq<char>>(m@),
            },
    {
        if self.at < self.queue.len() {
            let c = &self.queue[self.at];
            let hint_line = if c.line > 0 {
                Some((c.line - 1) as u32)
            } else {
                None
            };
            return LocateStep::Try { path: c.path.clone(), hint_line };
        }
        match &self.last_err {
            Some(e) => LocateStep::Failed(e.clone()),
            None => {
                let mut m = "symbol '".to_string();
                m.append(self.name.as_str());
                m.append("' not found");
                LocateStep::Failed(m)
            },
        }
    }

    /// Takes notice of what came of resolving the name before the dot in the candidate's file.
    pub fn on_resolved(&mut self, resolved: Result<SymbolLocation, String>) -> (r: LocateVerdict)
        requires
            old(self).at < old(self).queue.len(),
        ensures
            final(self).name == old(self).name,
            final(self).queue == old(self).queue,
            final(self).at == old(self).at + 1,
            forall|t: Seq<Resolution>|
                #![trigger old(self).outcome(t)]
                t[old(self).at as int].owner == location_view(resolved) ==> match r {
                    LocateVerdict::Next => resolved is Err && final(self).outcome(t) == old(self).outcome(t),
                    LocateVerdict::ResolveMember => old(self).outcome(t) == match t[old(self).at as int].member {
                        Ok(s) => Ok::<(Seq<char>, Symbol), Seq<char>>((candidate_views(old(self).queue@)[old(self).at as int].0, s)),
                        Err(e) => Err(e),
                    },
                    LocateVerdict::Located(s) => old(self).outcome(t) == Ok::<(Seq<char>, Symbol), Seq<char>>(
                        (candidate_views(old(self).queue@)[old(self).at as int].0, s@),
                    ),
                },
    {
        self.at = self.at + 1;
        match resolved {
            Ok(s) => if str_contains_char(self.name.as_str(), '.') {
                LocateVerdict::ResolveMember
            } else {
                LocateVerdict::Located(s)
            },
            Err(e) => {
                self.last_err = Some(e);
                LocateVerdict::Next
            },
        }
    }
}

/// The first candidate whose file has a plain name is the one that is edited; those before it do
/// not matter.
pub proof fn first_resolved_is_located(
    name: Seq<char>,
    queue: Seq<(Seq<char>, u32)>,
    tries: Seq<Resolution>,
    i: int,
    k: int,
    err: Option<Seq<char>>,
)
    requires
        0 <= i <= k < queue.len(),
        !name.contains('.'),
        forall|j: int| i <= j < k ==> (#[trigger] tries[j]).owner is Err,
        tries[k].owner is Ok,
    ensures
        located(name, queue, tries, i, err) == Ok::<(Seq<char>, Symbol), Seq<char>>(
            (queue[k].0, tries[k].owner->Ok_0),
        ),
    decreases k - i,
{
    if i < k {
        assert(tries[i].owner is Err);
        first_resolved_is_located(name, queue, tries, i + 1, k, Some(tries[i].owner->Err_0));
    }
}

} // verus!
