//! Answers from the index, without a language server.

use crate::commands::find::{found_order, Found, SymbolMatch};
use crate::commands::fix::opt_slice;
use crate::commands::list::{entries, Entry, SymbolEntry};
use crate::commands::read::{line_limit, symbol_answer, symbol_json, symbol_lines};
use crate::index::hasher::{digest, hash_file};
use crate::index::store::{CachedSymbol, Row};
use crate::index::watcher::{Dirty, DirtyFiles};
use crate::json::JsonValue;
use crate::sorting::{rank, seen, sort, sorted_by, sorting_is_stable};
use crate::text::{
    char_index, char_index_after, char_index_is_first, chars_of, decode_text, index_of_char, lex_lt, lines, opt_view,
    split_lines, str_eq, str_trim, string_of, trim, views,
};
use vstd::prelude::*;
use vstd::utf8::{decode_utf8, valid_utf8};

verus! {

// ── Freshness ───────────────────────────────────────────────────────────────

/// What is known of a file: the hash that the index holds for it, and the bytes on disk.
pub struct IndexedFile {
    pub path: String,
    /// The stored hash, where the file is indexed.
    pub hash: Option<String>,
    /// The bytes of the file, where it can be read.
    pub content: Option<Vec<u8>>,
}

/// The mathematical value of an [`IndexedFile`].
#[verifier::ext_equal]
pub struct KnownFile {
    pub path: Seq<char>,
    pub hash: Option<Seq<char>>,
    pub content: Option<Seq<u8>>,
}

impl View for IndexedFile {
    type V = KnownFile;

    open spec fn view(&self) -> KnownFile {
        KnownFile {
            path: self.path@,
            hash: opt_view(self.hash),
            content: match self.content {
                Some(b) => Some(b@),
                None => None,
            },
        }
    }
}

/// What is known of dirty files, where a watcher is active.
pub open spec fn dirty_view(d: Option<&DirtyFiles>) -> Option<Dirty> {
    match d {
        Some(d) => Some(d@),
        None => None,
    }
}

/// The index tells what the file holds. With a watcher, an indexed file that is not dirty is
/// trusted; without one, the stored hash has to be that of the file.
pub open spec fn is_fresh(file: KnownFile, dirty: Option<Dirty>) -> bool {
    match dirty {
        Some(d) => !d.has(file.path) && file.hash is Some,
        None => match (file.hash, file.content) {
            (Some(h), Some(b)) => h == digest(b),
            _ => false,
        },
    }
}

/// Checks whether a file's current content matches the index.
pub fn is_file_fresh(file: &IndexedFile, dirty_files: Option<&DirtyFiles>) -> (r: bool)
    ensures
        r == is_fresh(file@, dirty_view(dirty_files)),
{
    if let Some(df) = dirty_files {
        if df.is_dirty(file.path.as_str()) {
            return false;
        }
        return file.hash.is_some();
    }
    match (&file.hash, &file.content) {
        (Some(h), Some(b)) => str_eq(h.as_str(), hash_file(b.as_slice()).as_str()),
        _ => false,
    }
}

/// A file that changed since it was indexed is not fresh: a watcher that saw the change tells, and
/// without a watcher the hash does.
pub proof fn changed_file_is_stale(file: KnownFile, d: Dirty)
    ensures
        d.has(file.path) ==> !is_fresh(file, Some(d)),
        file.content matches Some(b) && file.hash != Some(digest(b)) ==> !is_fresh(file, None),
        file.content matches Some(b) && file.hash == Some(digest(b)) ==> is_fresh(file, None),
        file.hash is None ==> !is_fresh(file, None) && !is_fresh(file, Some(d)),
{
}

/// The first file with a path; where there is none, nothing is known of it.
pub open spec fn file_at(files: Seq<KnownFile>, path: Seq<char>) -> KnownFile
    decreases files.len(),
{
    if files.len() == 0 {
        KnownFile { path, hash: None, content: None }
    } else if files[0].path == path {
        files[0]
    } else {
        file_at(files.drop_first(), path)
    }
}

/// Position of the first file with a path, or the number of files.
fn file_position(files: &Vec<IndexedFile>, path: &str) -> (r: usize)
    ensures
        r <= files@.len(),
        r < files@.len() ==> file_at(seen(files@), path@) == files@[r as int]@,
        r == files@.len() ==> file_at(seen(files@), path@) == (KnownFile { path: path@, hash: None, content: None }),
{
    let ghost all = seen(files@);
    let mut i: usize = 0;
    assert(all.skip(0) =~= all);
    while i < files.len()
        invariant
            0 <= i <= files@.len(),
            all == seen(files@),
            file_at(all, path@) == file_at(all.skip(i as int), path@),
        decreases files@.len() - i,
    {
        assert(all.skip(i as int)[0] == files@[i as int]@);
        assert(all.skip(i as int).drop_first() =~= all.skip(i + 1));
        if str_eq(files[i].path.as_str(), path) {
            return i;
        }
        i = i + 1;
    }
    i
}

/// The text of a file, where it can be read and is UTF-8.
pub open spec fn text_of(content: Option<Seq<u8>>) -> Option<Seq<char>> {
    match content {
        Some(b) => if valid_utf8(b) {
            Some(decode_utf8(b))
        } else {
            None
        },
        None => None,
    }
}

fn read_text(content: &Option<Vec<u8>>) -> (r: Option<String>)
    ensures
        opt_view(r) == text_of(
            match *content {
                Some(b) => Some(b@),
                None => None,
            },
        ),
{
    match content {
        Some(b) => decode_text(copy_bytes(b)),
        None => None,
    }
}

fn copy_bytes(b: &Vec<u8>) -> (r: Vec<u8>)
    ensures
        r@ == b@,
{
    let mut out: Vec<u8> = Vec::new();
    let mut i: usize = 0;
    while i < b.len()
        invariant
            0 <= i <= b@.len(),
            out@ == b@.take(i as int),
        decreases b@.len() - i,
    {
        out.push(b[i]);
        assert(b@.take(i as int).push(b@[i as int]) =~= b@.take(i + 1));
        i = i + 1;
    }
    assert(b@.take(i as int) =~= b@);
    out
}

// ── Finding ─────────────────────────────────────────────────────────────────

/// The line with an index, without the space around it; nothing where there is no such line.
pub open spec fn preview_at(text: Option<Seq<char>>, line: u32) -> Seq<char> {
    match text {
        Some(t) => if line < lines(t).len() {
            trim(lines(t)[line as int])
        } else {
            Seq::empty()
        },
        None => Seq::empty(),
    }
}

/// A row as a search result; its line is counted from 1.
pub open spec fn row_found(row: Row, files: Seq<KnownFile>) -> Found {
    Found {
        path: row.path,
        line: row.range_start_line.wrapping_add(1),
        kind: row.kind,
        preview: preview_at(text_of(file_at(files, row.path).content), row.range_start_line),
        body: None,
    }
}

/// Rows as search results.
pub open spec fn rows_found(rows: Seq<Row>, files: Seq<KnownFile>) -> Seq<Found> {
    Seq::new(rows.len(), |i: int| row_found(rows[i], files))
}

/// All files of the rows are fresh.
pub open spec fn all_fresh(rows: Seq<Row>, files: Seq<KnownFile>, dirty: Option<Dirty>) -> bool {
    forall|i: int| 0 <= i < rows.len() ==> is_fresh(file_at(files, (#[trigger] rows[i]).path), dirty)
}

fn is_path_fresh(files: &Vec<IndexedFile>, path: &str, dirty_files: Option<&DirtyFiles>) -> (r: bool)
    ensures
        r == is_fresh(file_at(seen(files@), path@), dirty_view(dirty_files)),
{
    let at: usize = file_position(files, path);
    if at < files.len() {
        is_file_fresh(&files[at], dirty_files)
    } else {
        false
    }
}

fn find_preview(text: Option<String>, line: u32) -> (r: String)
    ensures
        r@ == preview_at(opt_view(text), line),
{
    match text {
        Some(t) => {
            let ls = split_lines(t.as_str());
            let n: usize = line as usize;
            if n < ls.len() {
                assert(views(ls@)[n as int] == ls@[n as int]@);
                str_trim(ls[n].as_str())
            } else {
                String::new()
            }
        },
        None => String::new(),
    }
}

fn preview_of(files: &Vec<IndexedFile>, path: &str, line: u32) -> (r: String)
    ensures
        r@ == preview_at(text_of(file_at(seen(files@), path@).content), line),
{
    let at: usize = file_position(files, path);
    if at < files.len() {
        find_preview(read_text(&files[at].content), line)
    } else {
        String::new()
    }
}

/// Serves `find symbol` from the rows that the index holds for a name. There is no answer where
/// there are no rows or a file of theirs is stale.
pub fn cached_find_symbol(symbols: Vec<CachedSymbol>, files: &Vec<IndexedFile>, dirty_files: Option<&DirtyFiles>) -> (r:
    Option<Vec<SymbolMatch>>)
    ensures
        match r {
            Some(found) => {
                &&& symbols@.len() > 0
                &&& all_fresh(seen(symbols@), seen(files@), dirty_view(dirty_files))
                &&& seen(found@) == sorted_by(rows_found(seen(symbols@), seen(files@)), rank::<SymbolMatch>())
            },
            None => symbols@.len() == 0 || !all_fresh(seen(symbols@), seen(files@), dirty_view(dirty_files)),
        },
{
    if symbols.len() == 0 {
        return None;
    }
    let ghost rows = seen(symbols@);
    let ghost known = seen(files@);
    let ghost dirty = dirty_view(dirty_files);
    let mut i: usize = 0;
    while i < symbols.len()
        invariant
            0 <= i <= symbols@.len(),
            rows == seen(symbols@),
            known == seen(files@),
            dirty == dirty_view(dirty_files),
            forall|k: int| 0 <= k < i ==> is_fresh(file_at(known, (#[trigger] rows[k]).path), dirty),
        decreases symbols@.len() - i,
    {
        assert(rows[i as int] == symbols@[i as int]@);
        if !is_path_fresh(files, symbols[i].path.as_str(), dirty_files) {
            return None;
        }
        i = i + 1;
    }
    let mut results: Vec<SymbolMatch> = Vec::new();
    for s in it: symbols
        invariant
            it.seq() == symbols@,
            rows == seen(it.seq()),
            known == seen(files@),
            seen(results@) =~= rows_found(rows.take(it.index()), known),
    {
        let ghost k = it.index();
        let ghost sv = s@;
        let ghost before = seen(results@);
        assert(rows[k] == sv);
        let preview = preview_of(files, s.path.as_str(), s.range_start_line);
        let m = SymbolMatch {
            path: s.path,
            line: s.range_start_line.wrapping_add(1),
            kind: s.kind,
            preview,
            body: None,
        };
        let ghost mv = m@;
        results.push(m);
        assert(mv == row_found(sv, known));
        assert(seen(results@) =~= before.push(mv));
        assert(rows.take(k + 1) =~= rows.take(k).push(sv));
    }
    assert(rows.take(rows.len() as int) =~= rows);
    Some(sort(results))
}

// ── Listing ─────────────────────────────────────────────────────────────────

/// A row lies below the given parent, or below none.
pub open spec fn below(parent: Option<Seq<char>>) -> spec_fn(Row) -> bool {
    |r: Row| r.parent_name == parent
}

/// The outline entry of a row. Below it stand the rows that name it as their parent, down to
/// `max_depth`.
pub open spec fn row_entry(row: Row, all: Seq<Row>, max_depth: u8, depth: u8) -> Entry
    decreases max_depth - depth, 0int,
{
    Entry {
        name: row.name,
        kind: row.kind,
        line: row.range_start_line.wrapping_add(1),
        end_line: row.range_end_line.wrapping_add(1),
        children: if depth < max_depth {
            rows_below(Some(row.name), all, max_depth, (depth + 1) as u8)
        } else {
            Seq::empty()
        },
    }
}

/// The outline entries of the rows below a parent, in order.
pub open spec fn rows_below(parent: Option<Seq<char>>, all: Seq<Row>, max_depth: u8, depth: u8) -> Seq<Entry>
    decreases max_depth - depth, 1int,
{
    Seq::new(all.filter(below(parent)).len(), |i: int| row_entry(all.filter(below(parent))[i], all, max_depth, depth))
}

/// The outline that flat rows make: those without a parent stand at the top.
pub open spec fn hierarchy(all: Seq<Row>, max_depth: u8) -> Seq<Entry> {
    rows_below(None, all, max_depth, 1)
}

/// Whether a row lies below the given parent.
fn lies_below(s: &CachedSymbol, parent: Option<&str>) -> (r: bool)
    ensures
        r == below(opt_slice(parent))(s@),
{
    match (&s.parent_name, parent) {
        (Some(a), Some(b)) => str_eq(a.as_str(), b),
        (None, None) => true,
        _ => false,
    }
}

fn entries_below(parent: Option<&str>, all: &[CachedSymbol], max_depth: u8, depth: u8) -> (r: Vec<SymbolEntry>)
    ensures
        entries(r@) == rows_below(opt_slice(parent), seen(all@), max_depth, depth),
    decreases max_depth - depth, 1int,
{
    let ghost rows = seen(all@);
    let ghost p = below(opt_slice(parent));
    let mut out: Vec<SymbolEntry> = Vec::new();
    let mut i: usize = 0;
    proof {
        reveal(Seq::filter);
        assert(rows.take(0).filter(p) =~= Seq::empty());
    }
    while i < all.len()
        invariant
            0 <= i <= all@.len(),
            rows == seen(all@),
            p == below(opt_slice(parent)),
            entries(out@) =~= Seq::new(
                rows.take(i as int).filter(p).len(),
                |k: int| row_entry(rows.take(i as int).filter(p)[k], rows, max_depth, depth),
            ),
        decreases all@.len() - i,
    {
        proof {
            reveal(Seq::filter);
            assert(rows.take(i + 1).drop_last() =~= rows.take(i as int));
            assert(rows.take(i + 1).last() == all@[i as int]@);
        }
        if lies_below(&all[i], parent) {
            let ghost before = entries(out@);
            let e = build_entry(&all[i], all, max_depth, depth);
            let ghost ev = e@;
            out.push(e);
            assert(entries(out@) =~= before.push(ev));
        }
        i = i + 1;
    }
    assert(rows.take(i as int) =~= rows);
    out
}

fn build_entry(sym: &CachedSymbol, all_symbols: &[CachedSymbol], max_depth: u8, current_depth: u8) -> (r: SymbolEntry)
    ensures
        r@ == row_entry(sym@, seen(all_symbols@), max_depth, current_depth),
    decreases max_depth - current_depth, 0int,
{
    let children = if current_depth < max_depth {
        entries_below(Some(sym.name.as_str()), all_symbols, max_depth, current_depth + 1)
    } else {
        Vec::new()
    };
    assert(current_depth >= max_depth ==> entries(children@) =~= Seq::empty());
    let r = SymbolEntry {
        name: sym.name.clone(),
        kind: sym.kind.clone(),
        line: sym.range_start_line.wrapping_add(1),
        end_line: sym.range_end_line.wrapping_add(1),
        children,
    };
    proof {
        r.children_view();
    }
    r
}

/// Builds a hierarchical outline from flat rows.
pub fn build_hierarchy(symbols: &[CachedSymbol], max_depth: u8) -> (r: Vec<SymbolEntry>)
    ensures
        entries(r@) == hierarchy(seen(symbols@), max_depth),
{
    entries_below(None, symbols, max_depth, 1)
}

/// Serves `list symbols` from the rows that the index holds for a file. There is no answer where the
/// file is stale or has no rows.
pub fn cached_list_symbols(
    symbols: &Vec<CachedSymbol>,
    depth: u8,
    file: &IndexedFile,
    dirty_files: Option<&DirtyFiles>,
) -> (r: Option<Vec<SymbolEntry>>)
    ensures
        match r {
            Some(found) => {
                &&& symbols@.len() > 0
                &&& is_fresh(file@, dirty_view(dirty_files))
                &&& entries(found@) == hierarchy(seen(symbols@), depth)
            },
            None => symbols@.len() == 0 || !is_fresh(file@, dirty_view(dirty_files)),
        },
{
    if !is_file_fresh(file, dirty_files) {
        return None;
    }
    if symbols.len() == 0 {
        return None;
    }
    Some(build_hierarchy(symbols.as_slice(), depth))
}

// ── Reading ─────────────────────────────────────────────────────────────────

/// The name that is looked up for a symbol: what stands before the first dot.
pub open spec fn owner_name(name: Seq<char>) -> Seq<char> {
    let dot = char_index(name, '.');
    if dot < name.len() {
        name.take(dot)
    } else {
        name
    }
}

/// What stands after the first dot of a name.
pub open spec fn member_name(name: Seq<char>) -> Option<Seq<char>> {
    let dot = char_index(name, '.');
    if dot < name.len() {
        Some(name.skip(dot + 1))
    } else {
        None
    }
}

/// The first of the rows that is the member of an owner.
pub open spec fn first_member(rows: Seq<Row>, member: Seq<char>, owner: Seq<char>) -> Option<Row>
    decreases rows.len(),
{
    if rows.len() == 0 {
        None
    } else if rows[0].name == member && rows[0].parent_name == Some(owner) {
        Some(rows[0])
    } else {
        first_member(rows.drop_first(), member, owner)
    }
}

/// The row of the symbol to read: the first of those with the name; for a dotted name the member in
/// the file of the first owner.
pub open spec fn target(name: Seq<char>, named: Seq<Row>, in_file: Seq<Row>) -> Option<Row> {
    if named.len() == 0 {
        None
    } else {
        match member_name(name) {
            Some(member) => first_member(in_file, member, owner_name(name)),
            None => Some(named[0]),
        }
    }
}

/// Splits a dotted name into the owner and the member.
pub fn split_dotted(name: &str) -> (r: (String, Option<String>))
    ensures
        r.0@ == owner_name(name@),
        opt_view(r.1) == member_name(name@),
{
    let v = chars_of(name);
    let n: usize = v.len();
    assert(v@.skip(0) =~= v@);
    let dot: usize = index_of_char(&v, '.', 0);
    if dot < n {
        assert(v@.subrange(0, dot as int) =~= v@.take(dot as int));
        assert(v@.subrange(dot + 1, n as int) =~= v@.skip(dot + 1));
        (string_of(&v, 0, dot), Some(string_of(&v, dot + 1, n)))
    } else {
        (name.to_string(), None)
    }
}

/// Finds the row of the symbol to read. `named` are the rows with the owner's name, `in_file` those
/// of the file of the first of them.
pub fn read_target<'a>(name: &str, named: &'a Vec<CachedSymbol>, in_file: &'a Vec<CachedSymbol>) -> (r: Option<
    &'a CachedSymbol,
>)
    ensures
        match r {
            Some(s) => target(name@, seen(named@), seen(in_file@)) == Some(s@),
            None => target(name@, seen(named@), seen(in_file@)) is None,
        },
{
    if named.len() == 0 {
        return None;
    }
    let (owner, member) = split_dotted(name);
    match member {
        Some(m) => {
            let ghost rows = seen(in_file@);
            let mut i: usize = 0;
            assert(rows.skip(0) =~= rows);
            while i < in_file.len()
                invariant
                    0 <= i <= in_file@.len(),
                    rows == seen(in_file@),
                    named@.len() > 0,
                    owner@ == owner_name(name@),
                    member_name(name@) == Some(m@),
                    first_member(rows, m@, owner@) == first_member(rows.skip(i as int), m@, owner@),
                decreases in_file@.len() - i,
            {
                assert(rows.skip(i as int)[0] == in_file@[i as int]@);
                assert(rows.skip(i as int).drop_first() =~= rows.skip(i + 1));
                if str_eq(in_file[i].name.as_str(), m.as_str()) && lies_below(&in_file[i], Some(owner.as_str())) {
                    return Some(&in_file[i]);
                }
                i = i + 1;
            }
            None
        },
        None => Some(&named[0]),
    }
}

/// The lines of a row in a text: one past the last of them.
pub open spec fn row_end(row: Row, total: int) -> int {
    if row.range_end_line < total {
        row.range_end_line + 1
    } else {
        total
    }
}

/// The range of a row starts beyond the line after its end, and the text goes on that far.
pub open spec fn runs_backwards(row: Row, text: Option<Seq<char>>) -> bool {
    text matches Some(t) && row.range_end_line + 1 < row.range_start_line < lines(t).len()
}

/// Serves `read symbol` from a row of the index and the file on disk. There is no answer where the
/// file is stale, cannot be read, or ends before the symbol.
pub fn cached_read_symbol(
    target: &CachedSymbol,
    signature_only: bool,
    max_lines: Option<u32>,
    file: &IndexedFile,
    dirty_files: Option<&DirtyFiles>,
) -> (r: Option<JsonValue>)
    requires
        !runs_backwards(target@, text_of(file@.content)),
    ensures
        match r {
            Some(v) => {
                &&& is_fresh(file@, dirty_view(dirty_files))
                &&& text_of(file@.content) matches Some(t) && {
                    let start = target.range_start_line as int;
                    &&& start < lines(t).len()
                    &&& v@ == symbol_json(
                        target@.path,
                        target@.name,
                        target@.kind,
                        lines(t).subrange(start, row_end(target@, lines(t).len() as int)),
                        start,
                        signature_only,
                        line_limit(max_lines),
                    )
                }
            },
            None => !is_fresh(file@, dirty_view(dirty_files)) || match text_of(file@.content) {
                Some(t) => target.range_start_line >= lines(t).len(),
                None => true,
            },
        },
{
    if !is_file_fresh(file, dirty_files) {
        return None;
    }
    let content = match read_text(&file.content) {
        Some(c) => c,
        None => {
            return None;
        },
    };
    let all_lines = split_lines(content.as_str());
    let total: usize = all_lines.len();
    assert(views(all_lines@).len() == total);
    let start: usize = target.range_start_line as usize;
    if start >= total {
        return None;
    }
    let last: usize = target.range_end_line as usize;
    let end: usize = if last < total {
        last + 1
    } else {
        total
    };
    Some(
        symbol_answer(
            target.path.as_str(),
            target.name.as_str(),
            target.kind.as_str(),
            &all_lines,
            start,
            end,
            signature_only,
            max_lines,
        ),
    )
}

/// Reading a symbol by its row in the index shows what reading it by the range of a language server
/// shows: the lines from the first to the last of the range, both included.
pub proof fn cached_read_is_a_live_read(row: Row, text: Seq<char>, signature_only: bool, max: int)
    requires
        row.range_start_line < lines(text).len(),
        row.range_start_line <= row.range_end_line,
    ensures
        lines(text).subrange(row.range_start_line as int, row_end(row, lines(text).len() as int)) == symbol_lines(
            text,
            row.range_start_line as int,
            row.range_end_line as int,
        ),
        row.range_end_line < lines(text).len() ==> lines(text).subrange(
            row.range_start_line as int,
            row_end(row, lines(text).len() as int),
        ).len() == row.range_end_line - row.range_start_line + 1,
{
}

/// Without a watcher a file is fresh just where its bytes have the stored hash; with one, where it is
/// indexed and not dirty.
pub proof fn fresh_files_are_unchanged(file: KnownFile, d: Dirty)
    ensures
        is_fresh(file, None) <==> file.hash is Some && file.content is Some && file.hash->Some_0 == digest(
            file.content->Some_0,
        ),
        is_fresh(file, Some(d)) <==> file.hash is Some && !d.has(file.path),
{
}

/// What is known of a path is what the first file with it tells.
pub proof fn first_file_is_known(files: Seq<KnownFile>, path: Seq<char>, i: int)
    requires
        0 <= i < files.len(),
        files[i].path == path,
        forall|j: int| 0 <= j < i ==> (#[trigger] files[j]).path != path,
    ensures
        file_at(files, path) == files[i],
    decreases i,
{
    if i > 0 {
        let rest = files.drop_first();
        assert forall|j: int| 0 <= j < i - 1 implies (#[trigger] rest[j]).path != path by {
            assert(rest[j] == files[j + 1]);
        }
        assert(rest[i - 1] == files[i]);
        first_file_is_known(rest, path, i - 1);
        assert(files[0].path != path);
    }
}

/// The index answers with all of its rows for a name, each at its path and its first line, counted from
/// 1, and shows that line; by path and, in one file, by line.
pub proof fn all_rows_are_found(rows: Seq<Row>, files: Seq<KnownFile>, i: int)
    requires
        0 <= i < rows.len(),
        rows[i].range_start_line < u32::MAX,
    ensures
        ({
            let r = sorted_by(rows_found(rows, files), rank::<SymbolMatch>());
            let text = text_of(file_at(files, rows[i].path).content);
            &&& r.len() == rows.len()
            &&& exists|k: int|
                0 <= k < r.len() && (#[trigger] r[k]).path == rows[i].path && r[k].line == rows[i].range_start_line + 1
                    && r[k].kind == rows[i].kind && r[k].preview == (match text {
                    Some(t) => if rows[i].range_start_line < lines(t).len() {
                        trim(lines(t)[rows[i].range_start_line as int])
                    } else {
                        Seq::empty()
                    },
                    None => Seq::empty(),
                })
            &&& forall|a: int, b: int|
                0 <= a < b < r.len() ==> !lex_lt((#[trigger] r[b]).path, (#[trigger] r[a]).path) && (r[a].path
                    == r[b].path ==> r[a].line <= r[b].line)
        }),
{
    broadcast use vstd::seq_lib::group_to_multiset_ensures;
    let lt = rank::<SymbolMatch>();
    let s = rows_found(rows, files);
    found_order();
    sorting_is_stable(s, lt);
    let r = sorted_by(s, lt);
    assert(s.contains(s[i]));
    assert(s.to_multiset().count(s[i]) > 0);
    assert(r.to_multiset().count(s[i]) > 0);
    assert(r.contains(s[i]));
    let k = choose|k: int| 0 <= k < r.len() && r[k] == s[i];
    assert(r[k].path == rows[i].path);
    assert forall|a: int, b: int| 0 <= a < b < r.len() implies !lex_lt((#[trigger] r[b]).path, (#[trigger] r[a]).path) && (
    r[a].path == r[b].path ==> r[a].line <= r[b].line) by {
        assert(!lt(r[b], r[a]));
    }
}

/// An outline from the index has at its top the rows that lie in no other, in order, with their first and
/// last lines counted from 1; below each stand the rows that lie in it, down to the depth asked for.
pub proof fn rows_stand_below_their_parents(all: Seq<Row>, max_depth: u8, depth: u8, parent: Option<Seq<char>>, i: int)
    requires
        1 <= depth <= max_depth,
        0 <= i < all.filter(|r: Row| r.parent_name == parent).len(),
    ensures
        hierarchy(all, max_depth) == rows_below(None, all, max_depth, 1),
        ({
            let inside = all.filter(|r: Row| r.parent_name == parent);
            let out = rows_below(parent, all, max_depth, depth);
            &&& out.len() == inside.len()
            &&& out[i].name == inside[i].name
            &&& out[i].kind == inside[i].kind
            &&& out[i].line == inside[i].range_start_line.wrapping_add(1)
            &&& out[i].end_line == inside[i].range_end_line.wrapping_add(1)
            &&& depth == max_depth ==> out[i].children.len() == 0
            &&& depth < max_depth ==> out[i].children == rows_below(
                Some(inside[i].name),
                all,
                max_depth,
                (depth + 1) as u8,
            )
        }),
{
    let p = |r: Row| r.parent_name == parent;
    assert(below(parent) =~= p);
}

/// A plain name is read from its first row, and a dotted one from the first row in the file with the name
/// behind the dot that lies in what stands before it.
pub proof fn members_are_read_from_their_owner(owner: Seq<char>, member: Seq<char>, named: Seq<Row>, rows: Seq<Row>, i: int)
    requires
        !owner.contains('.'),
        named.len() > 0,
        0 <= i < rows.len(),
        rows[i].name == member,
        rows[i].parent_name == Some(owner),
        forall|j: int| 0 <= j < i ==> !((#[trigger] rows[j]).name == member && rows[j].parent_name == Some(owner)),
    ensures
        target(owner, named, rows) == Some(named[0]),
        target(owner + seq!['.'] + member, named, rows) == Some(rows[i]),
{
    char_index_is_first(owner, '.');
    let n = char_index(owner, '.');
    if n < owner.len() {
        assert(owner[n] == '.');
    }
    let name = owner + seq!['.'] + member;
    char_index_after(owner, member, '.');
    assert(name.take(owner.len() as int) =~= owner);
    assert(name.skip(owner.len() as int + 1) =~= member);
    member_is_first(rows, member, owner, i);
}

proof fn member_is_first(rows: Seq<Row>, member: Seq<char>, owner: Seq<char>, i: int)
    requires
        0 <= i < rows.len(),
        rows[i].name == member,
        rows[i].parent_name == Some(owner),
        forall|j: int| 0 <= j < i ==> !((#[trigger] rows[j]).name == member && rows[j].parent_name == Some(owner)),
    ensures
        first_member(rows, member, owner) == Some(rows[i]),
    decreases i,
{
    if i > 0 {
        let rest = rows.drop_first();
        assert forall|j: int| 0 <= j < i - 1 implies !((#[trigger] rest[j]).name == member && rest[j].parent_name
            == Some(owner)) by {
            assert(rest[j] == rows[j + 1]);
        }
        assert(rest[i - 1] == rows[i]);
        member_is_first(rest, member, owner, i - 1);
        assert(!(rows[0].name == member && rows[0].parent_name == Some(owner)));
    }
}

} // verus!
