//! Building the index: which files to index, by how many workers, and what symbols they hold.

use crate::commands::find::{kind_name, symbol_kind_name};
use crate::commands::fix::opt_slice;
use crate::json::{entries_view, jsons, key_index, Json, JsonValue};
use crate::lsp::symbols::entry_is_smaller;
use crate::paths::{extension, path_before, path_extension, path_lt, relative_or_self, relative_to};
use crate::sorting::{rank, seen, sort, sorted_by, Ranked};
use crate::text::{list_contains, str_eq, views};
use crate::index::store::{CachedSymbol, Row};
use vstd::prelude::*;

verus! {

/// Statistics of an index build.
#[derive(Debug)]
pub struct IndexStats {
    pub files_total: usize,
    pub files_indexed: usize,
    pub files_cached: usize,
    pub symbols_total: usize,
}

impl Default for IndexStats {
    fn default() -> (r: IndexStats)
        ensures
            r == (IndexStats { files_total: 0, files_indexed: 0, files_cached: 0, symbols_total: 0 }),
    {
        IndexStats { files_total: 0, files_indexed: 0, files_cached: 0, symbols_total: 0 }
    }
}

/// A file to be indexed.
pub struct FileEntry {
    pub abs_path: String,
    pub rel_path: String,
    /// The hash of the file's contents.
    pub hash: String,
}

/// The mathematical value of a [`FileEntry`].
#[verifier::ext_equal]
pub struct Source {
    pub abs_path: Seq<char>,
    pub rel_path: Seq<char>,
    pub hash: Seq<char>,
}

impl View for FileEntry {
    type V = Source;

    open spec fn view(&self) -> Source {
        Source { abs_path: self.abs_path@, rel_path: self.rel_path@, hash: self.hash@ }
    }
}

// ── Choosing files ──────────────────────────────────────────────────────────

/// A path that is put in order by its components.
pub struct FilePath {
    pub path: String,
}

impl View for FilePath {
    type V = Seq<char>;

    open spec fn view(&self) -> Seq<char> {
        self.path@
    }
}

impl Ranked for FilePath {
    open spec fn before(a: Seq<char>, b: Seq<char>) -> bool {
        path_before(a, b)
    }

    fn is_before(&self, other: &FilePath) -> (r: bool) {
        path_lt(self.path.as_str(), other.path.as_str())
    }
}

/// The files that have one of the extensions, as they come.
pub open spec fn with_extensions(files: Seq<Seq<char>>, extensions: Seq<Seq<char>>) -> Seq<Seq<char>>
    decreases files.len(),
{
    if files.len() == 0 {
        Seq::empty()
    } else {
        let rest = with_extensions(files.drop_last(), extensions);
        match extension(files.last()) {
            Some(ext) => if extensions.contains(ext) {
                rest.push(files.last())
            } else {
                rest
            },
            None => rest,
        }
    }
}

/// Keeps the files that have one of the extensions, in the order of paths.
pub fn select_source_files(files: Vec<String>, extensions: &Vec<String>) -> (r: Vec<String>)
    ensures
        views(r@) == sorted_by(with_extensions(views(files@), views(extensions@)), rank::<FilePath>()),
{
    let ghost all = views(files@);
    let ghost exts = views(extensions@);
    let mut kept: Vec<FilePath> = Vec::new();
    assert(all.take(0) =~= Seq::empty());
    assert(seen(kept@) =~= Seq::empty());
    for f in it: files
        invariant
            it.seq() == files@,
            all == views(it.seq()),
            exts == views(extensions@),
            seen(kept@) == with_extensions(all.take(it.index()), exts),
    {
        let ghost i = it.index();
        let ghost fv = f@;
        assert(all.take(i + 1).drop_last() =~= all.take(i));
        assert(all.take(i + 1).last() == fv);
        if let Some(ext) = path_extension(f.as_str()) {
            if list_contains(extensions, ext.as_str()) {
                let ghost before = seen(kept@);
                kept.push(FilePath { path: f });
                assert(seen(kept@) =~= before.push(fv));
            }
        }
    }
    assert(all.take(all.len() as int) =~= all);
    path_texts(sort(kept))
}

/// The texts of paths.
pub fn path_texts(paths: Vec<FilePath>) -> (r: Vec<String>)
    ensures
        views(r@) == seen(paths@),
{
    let ghost want = seen(paths@);
    let mut out: Vec<String> = Vec::new();
    assert(views(out@) =~= want.take(0));
    for p in it: paths
        invariant
            it.seq() == paths@,
            want == seen(it.seq()),
            views(out@) == want.take(it.index()),
    {
        let ghost before = views(out@);
        let ghost i = it.index();
        let ghost pv = p@;
        out.push(p.path);
        assert(views(out@) =~= before.push(pv));
        assert(want.take(i + 1) =~= want.take(i).push(pv));
    }
    assert(want.take(want.len() as int) =~= want);
    out
}

/// Pairs of texts.
pub open spec fn pairs(v: Seq<(String, String)>) -> Seq<(Seq<char>, Seq<char>)> {
    Seq::new(v.len(), |i: int| (v[i].0@, v[i].1@))
}

/// What is stored under a key, the last entry with it counting.
pub open spec fn stored_under(s: Seq<(Seq<char>, Seq<char>)>, key: Seq<char>) -> Option<Seq<char>>
    decreases s.len(),
{
    if s.len() == 0 {
        None
    } else if s.last().0 == key {
        Some(s.last().1)
    } else {
        stored_under(s.drop_last(), key)
    }
}

/// The file with the given path and hash, seen from the project root.
pub open spec fn source_of(file: (Seq<char>, Seq<char>), root: Seq<char>) -> Source {
    Source { abs_path: file.0, rel_path: relative_or_self(file.0, root), hash: file.1 }
}

/// The index holds the file as it is.
pub open spec fn is_cached(file: (Seq<char>, Seq<char>), stored: Seq<(Seq<char>, Seq<char>)>, root: Seq<char>) -> bool {
    stored_under(stored, relative_or_self(file.0, root)) == Some(file.1)
}

/// The files that have to be indexed.
pub open spec fn to_index(
    files: Seq<(Seq<char>, Seq<char>)>,
    stored: Seq<(Seq<char>, Seq<char>)>,
    root: Seq<char>,
) -> Seq<Source>
    decreases files.len(),
{
    if files.len() == 0 {
        Seq::empty()
    } else {
        let rest = to_index(files.drop_last(), stored, root);
        if is_cached(files.last(), stored, root) {
            rest
        } else {
            rest.push(source_of(files.last(), root))
        }
    }
}

fn look_up(stored: &Vec<(String, String)>, key: &str, value: &str) -> (r: bool)
    ensures
        r == (stored_under(pairs(stored@), key@) == Some(value@)),
{
    let ghost all = pairs(stored@);
    let mut i: usize = stored.len();
    assert(all.take(i as int) =~= all);
    while i > 0
        invariant
            0 <= i <= stored@.len(),
            all == pairs(stored@),
            stored_under(all, key@) == stored_under(all.take(i as int), key@),
        decreases i,
    {
        assert(all.take(i as int).last() == all[i - 1]);
        assert(all.take(i as int).drop_last() =~= all.take(i - 1));
        if str_eq(stored[i - 1].0.as_str(), key) {
            return str_eq(stored[i - 1].1.as_str(), value);
        }
        i = i - 1;
    }
    false
}

/// Determines which files need indexing by comparing their hashes with the stored ones. Returns the
/// files to index and the number of those that need none.
pub fn plan_index(hashes: Vec<(String, String)>, stored: &Vec<(String, String)>, project_root: &str) -> (r: (
    Vec<FileEntry>,
    usize,
))
    ensures
        seen(r.0@) == to_index(pairs(hashes@), pairs(stored@), project_root@),
        r.0@.len() + r.1 == hashes@.len(),
{
    let ghost all = pairs(hashes@);
    let ghost known = pairs(stored@);
    let mut out: Vec<FileEntry> = Vec::new();
    let mut cached: usize = 0;
    let total: usize = hashes.len();
    assert(all.take(0) =~= Seq::empty());
    assert(seen(out@) =~= Seq::empty());
    for f in it: hashes
        invariant
            it.seq() == hashes@,
            all == pairs(it.seq()),
            known == pairs(stored@),
            total == all.len(),
            out@.len() + cached == it.index(),
            seen(out@) == to_index(all.take(it.index()), known, project_root@),
    {
        let ghost i = it.index();
        let ghost fv = (f.0@, f.1@);
        assert(all.take(i + 1).drop_last() =~= all.take(i));
        assert(all.take(i + 1).last() == fv);
        let rel = relative_to(f.0.as_str(), project_root);
        if look_up(stored, rel.as_str(), f.1.as_str()) {
            cached = cached + 1;
        } else {
            let ghost before = seen(out@);
            out.push(FileEntry { abs_path: f.0, rel_path: rel, hash: f.1 });
            assert(seen(out@) =~= before.push(source_of(fv, project_root@)));
        }
    }
    assert(all.take(all.len() as int) =~= all);
    (out, cached)
}

/// A file is indexed exactly where its stored hash is not its hash.
pub proof fn indexed_iff_changed(
    files: Seq<(Seq<char>, Seq<char>)>,
    stored: Seq<(Seq<char>, Seq<char>)>,
    root: Seq<char>,
    i: int,
)
    requires
        0 <= i < files.len(),
        forall|j: int| 0 <= j < files.len() && j != i ==> (#[trigger] files[j]).0 != files[i].0,
    ensures
        to_index(files, stored, root).contains(source_of(files[i], root)) == !is_cached(files[i], stored, root),
    decreases files.len(),
{
    let n = files.len() - 1;
    let init = files.drop_last();
    let rest = to_index(init, stored, root);
    let all = to_index(files, stored, root);
    let x = source_of(files[i], root);
    if i == n {
        to_index_comes_from(init, stored, root);
        assert(!rest.contains(x)) by {
            if rest.contains(x) {
                let k = choose|k: int| 0 <= k < rest.len() && rest[k] == x;
                let j = choose|j: int| 0 <= j < init.len() && #[trigger] source_of(init[j], root) == rest[k];
                assert(init[j] == files[j]);
            }
        }
        if !is_cached(files[i], stored, root) {
            assert(all[rest.len() as int] == x);
        }
    } else {
        indexed_iff_changed(init, stored, root, i);
        assert(init[i] == files[i]);
        if rest.contains(x) {
            let k = choose|k: int| 0 <= k < rest.len() && rest[k] == x;
            assert(all[k] == x);
        } else if all.contains(x) {
            let k = choose|k: int| 0 <= k < all.len() && all[k] == x;
            if k < rest.len() {
                assert(rest[k] == x);
            }
            assert(all[k] == source_of(files[n], root));
        }
    }
}

/// What is indexed is one of the files.
proof fn to_index_comes_from(files: Seq<(Seq<char>, Seq<char>)>, stored: Seq<(Seq<char>, Seq<char>)>, root: Seq<char>)
    ensures
        forall|k: int|
            0 <= k < to_index(files, stored, root).len() ==> exists|j: int|
                0 <= j < files.len() && source_of(files[j], root) == #[trigger] to_index(files, stored, root)[k],
    decreases files.len(),
{
    if files.len() > 0 {
        let init = files.drop_last();
        to_index_comes_from(init, stored, root);
        let rest = to_index(init, stored, root);
        let all = to_index(files, stored, root);
        assert forall|k: int| 0 <= k < all.len() implies exists|j: int|
            0 <= j < files.len() && source_of(files[j], root) == #[trigger] all[k] by {
            if k < rest.len() {
                assert(rest[k] == all[k]);
                let j = choose|j: int| 0 <= j < init.len() && source_of(init[j], root) == rest[k];
                assert(files[j] == init[j]);
            } else {
                assert(source_of(files[files.len() - 1], root) == all[k]);
            }
        }
    }
}

// ── Sharing the work ────────────────────────────────────────────────────────

/// The number of processors, or what is taken for it where it is not known.
pub open spec fn processors(cpus: Option<usize>) -> int {
    match cpus {
        Some(n) => n as int,
        None => 4,
    }
}

/// Batch size for pipelined requests: four for each processor, at least 8 and at most 64.
pub fn detect_batch_size(cpus: Option<usize>) -> (r: usize)
    requires
        processors(cpus) * 4 <= usize::MAX,
    ensures
        r == if processors(cpus) * 4 < 8 {
            8
        } else if processors(cpus) * 4 > 64 {
            64
        } else {
            processors(cpus) * 4
        },
{
    let n: usize = match cpus {
        Some(n) => n,
        None => 4,
    };
    let size: usize = n * 4;
    if size < 8 {
        8
    } else if size > 64 {
        64
    } else {
        size
    }
}

/// Number of parallel workers: one for every one and a half processors, at least 1 and at most 10.
pub fn detect_worker_count(cpus: Option<usize>) -> (r: usize)
    requires
        processors(cpus) * 2 <= usize::MAX,
    ensures
        r == if (processors(cpus) * 2) / 3 < 1 {
            1
        } else if (processors(cpus) * 2) / 3 > 10 {
            10
        } else {
            (processors(cpus) * 2) / 3
        },
{
    let n: usize = match cpus {
        Some(n) => n,
        None => 4,
    };
    let workers: usize = (n * 2) / 3;
    if workers < 1 {
        1
    } else if workers > 10 {
        10
    } else {
        workers
    }
}

/// Number of workers for some files: never more than there are files, and at least one.
pub fn workers_for(num_workers: usize, files: usize) -> (r: usize)
    ensures
        r == if num_workers == 0 || files == 0 {
            1
        } else if num_workers < files {
            num_workers
        } else {
            files
        },
{
    let least: usize = if num_workers < files {
        num_workers
    } else {
        files
    };
    if least < 1 {
        1
    } else {
        least
    }
}

/// The indices of the files that a worker gets, the workers taking turns.
pub open spec fn share(total: int, worker: int, workers: int) -> Seq<int>
    decreases (if worker < total { total - worker } else { 0 }),
{
    if worker >= total || workers <= 0 {
        Seq::empty()
    } else {
        seq![worker] + share(total, worker + workers, workers)
    }
}

/// Indices as integers.
pub open spec fn ints(v: Seq<usize>) -> Seq<int> {
    Seq::new(v.len(), |i: int| v[i] as int)
}

/// The indices of the files that a worker gets, the workers taking turns.
pub fn worker_indices(total: usize, worker: usize, workers: usize) -> (r: Vec<usize>)
    requires
        workers > 0,
    ensures
        ints(r@) == share(total as int, worker as int, workers as int),
{
    let mut out: Vec<usize> = Vec::new();
    let mut i: usize = worker;
    let mut done = worker >= total;
    let ghost whole = share(total as int, worker as int, workers as int);
    assert(ints(out@) + share(total as int, i as int, workers as int) =~= whole);
    assert(done ==> ints(out@) =~= whole);
    while !done
        invariant
            workers > 0,
            whole == share(total as int, worker as int, workers as int),
            !done ==> i < total && ints(out@) + share(total as int, i as int, workers as int) == whole,
            done ==> ints(out@) == whole,
        decreases (if done { 0 } else { 1 + total - i }),
    {
        let ghost before = ints(out@);
        out.push(i);
        assert(ints(out@) =~= before.push(i as int));
        assert(before.push(i as int) + share(total as int, i + workers, workers as int) =~= before + (seq![i as int]
            + share(total as int, i + workers, workers as int)));
        if total - i <= workers {
            done = true;
            assert(share(total as int, i + workers, workers as int) =~= Seq::empty());
            assert(ints(out@) =~= whole);
        } else {
            i = i + workers;
        }
    }
    out
}

/// The shares of the workers: a file belongs to the worker whose number is its index modulo the
/// number of workers, and to no other.
pub proof fn shares_split_the_files(total: int, worker: int, workers: int, i: int)
    requires
        0 <= worker < workers,
        0 <= i < total,
    ensures
        share(total, worker, workers).contains(i) == (i % workers == worker),
{
    share_members(total, worker, workers, i);
    if i % workers == worker {
        vstd::arithmetic::div_mod::lemma_fundamental_div_mod(i, workers);
        let q = i / workers;
        assert(i == workers * q + worker);
        vstd::arithmetic::div_mod::lemma_div_pos_is_pos(i, workers);
        vstd::arithmetic::mul::lemma_mul_is_commutative(q, workers);
        assert(i == worker + q * workers);
    }
    if share(total, worker, workers).contains(i) {
        let q = choose|q: int| q >= 0 && i == worker + #[trigger] (q * workers);
        vstd::arithmetic::mul::lemma_mul_is_commutative(q, workers);
        vstd::arithmetic::div_mod::lemma_fundamental_div_mod_converse(i, workers, q, worker);
    }
}

/// A share holds the indices at whole steps from its start.
proof fn share_members(total: int, start: int, workers: int, i: int)
    requires
        workers > 0,
        i < total,
    ensures
        share(total, start, workers).contains(i) == exists|q: int| q >= 0 && i == start + #[trigger] (q * workers),
    decreases (if start < total { total - start } else { 0 }),
{
    let s = share(total, start, workers);
    if start >= total {
        assert(!s.contains(i));
        assert forall|q: int| q >= 0 implies i != start + #[trigger] (q * workers) by {
            assert(q * workers >= 0) by (nonlinear_arith)
                requires
                    q >= 0,
                    workers > 0,
            ;
        }
    } else {
        let rest = share(total, start + workers, workers);
        share_members(total, start + workers, workers, i);
        if s.contains(i) {
            let k = choose|k: int| 0 <= k < s.len() && s[k] == i;
            if k == 0 {
                assert(i == start + 0 * workers);
            } else {
                assert(rest[k - 1] == i);
                let q = choose|q: int| q >= 0 && i == start + workers + #[trigger] (q * workers);
                assert((q + 1) * workers == q * workers + workers) by (nonlinear_arith);
                assert(i == start + (q + 1) * workers);
            }
        }
        if exists|q: int| q >= 0 && i == start + #[trigger] (q * workers) {
            let q = choose|q: int| q >= 0 && i == start + #[trigger] (q * workers);
            if q == 0 {
                assert(q * workers == 0) by (nonlinear_arith)
                    requires
                        q == 0,
                ;
                assert(s[0] == i);
            } else {
                assert((q - 1) * workers == q * workers - workers) by (nonlinear_arith);
                assert(i == start + workers + (q - 1) * workers);
                let k = choose|k: int| 0 <= k < rest.len() && rest[k] == i;
                assert(s[k + 1] == i);
            }
        }
    }
}

// ── Symbols of a file ───────────────────────────────────────────────────────

/// A number of a symbol's range.
pub open spec fn range_number(item: Json, which: Seq<char>, what: Seq<char>) -> u32 {
    match item.get3("range"@, which, what) {
        Some(v) => match v.as_u64() {
            Some(n) => n as u32,
            None => 0,
        },
        None => 0,
    }
}

/// The row of a symbol of a document.
pub open spec fn row_of(item: Json, parent: Option<Seq<char>>) -> Row {
    Row {
        name: item.str_or("name"@, Seq::empty()),
        kind: kind_name(item.u64_or("kind"@, 0)),
        path: Seq::empty(),
        range_start_line: range_number(item, "start"@, "line"@),
        range_start_col: range_number(item, "start"@, "character"@),
        range_end_line: range_number(item, "end"@, "line"@),
        range_end_col: range_number(item, "end"@, "character"@),
        parent_name: parent,
    }
}

/// The rows of the symbols of a document, each before those of its children.
pub open spec fn flat(value: Json, parent: Option<Seq<char>>) -> Seq<Row>
    decreases value, 0int,
{
    match value {
        Json::Arr(items) => flat_items(items, parent),
        _ => Seq::empty(),
    }
}

/// The rows of a list of symbols.
pub open spec fn flat_items(items: Seq<Json>, parent: Option<Seq<char>>) -> Seq<Row>
    decreases items, 0int,
{
    if items.len() == 0 {
        Seq::empty()
    } else {
        flat_items(items.drop_last(), parent) + seq![row_of(items.last(), parent)] + rows_below(items.last())
    }
}

/// The rows of the symbols below a symbol.
pub open spec fn rows_below(item: Json) -> Seq<Row>
    decreases item, 1int,
{
    match item {
        Json::Obj(fields) => {
            let i = key_index(fields, "children"@);
            if 0 <= i < fields.len() {
                flat(fields[i].1, Some(item.str_or("name"@, Seq::empty())))
            } else {
                Seq::empty()
            }
        },
        _ => Seq::empty(),
    }
}

fn read_range(item: &JsonValue, which: &str, what: &str) -> (r: u32)
    ensures
        r == range_number(item@, which@, what@),
{
    match item.get3("range", which, what) {
        Some(v) => match v.as_u64() {
            Some(n) => n as u32,
            None => 0,
        },
        None => 0,
    }
}

/// Flattens a hierarchical document symbol response into a flat list.
pub fn flatten_document_symbols(value: &JsonValue, parent: Option<&str>) -> (r: Vec<CachedSymbol>)
    ensures
        seen(r@) == flat(value@, opt_slice(parent)),
    decreases value, 0int,
{
    let mut out: Vec<CachedSymbol> = Vec::new();
    match value {
        JsonValue::Array(items) => {
            proof {
                JsonValue::array_view(*items);
            }
            let ghost all = jsons(items@);
            let mut i: usize = 0;
            assert(all.take(0) =~= Seq::empty());
            assert(seen(out@) =~= Seq::empty());
            while i < items.len()
                invariant
                    0 <= i <= items@.len(),
                    *value == JsonValue::Array(*items),
                    all == jsons(items@),
                    seen(out@) == flat_items(all.take(i as int), opt_slice(parent)),
                decreases items@.len() - i,
            {
                assert(decreases_to!(*value => value->Array_0));
                assert(decreases_to!(items => items@[i as int]));
                let ghost before = seen(out@);
                assert(all.take(i + 1).drop_last() =~= all.take(i as int));
                assert(all.take(i + 1).last() == items@[i as int]@);
                let row = make_row(&items[i], parent);
                let ghost rv = row@;
                out.push(row);
                assert(seen(out@) =~= before.push(rv));
                let mut below = children_rows(&items[i]);
                let ghost bv = seen(below@);
                let ghost mid = out@;
                let ghost given = below@;
                out.append(&mut below);
                assert(seen(out@) =~= seen(mid) + seen(given));
                assert(before.push(rv) + bv =~= before + seq![rv] + bv);
                i = i + 1;
            }
            assert(all.take(i as int) =~= all);
        },
        _ => {
            assert(seen(out@) =~= Seq::empty());
        },
    }
    out
}

fn make_row(item: &JsonValue, parent: Option<&str>) -> (r: CachedSymbol)
    ensures
        r@ == row_of(item@, opt_slice(parent)),
{
    proof {
        reveal_strlit("");
        assert(""@ =~= Seq::empty());
    }
    CachedSymbol {
        name: item.str_or("name", ""),
        kind: symbol_kind_name(item.u64_or("kind", 0)).to_string(),
        path: String::new(),
        range_start_line: read_range(item, "start", "line"),
        range_start_col: read_range(item, "start", "character"),
        range_end_line: read_range(item, "end", "line"),
        range_end_col: read_range(item, "end", "character"),
        parent_name: match parent {
            Some(p) => Some(p.to_string()),
            None => None,
        },
    }
}

fn children_rows(item: &JsonValue) -> (r: Vec<CachedSymbol>)
    ensures
        seen(r@) == rows_below(item@),
    decreases item, 1int,
{
    match item {
        JsonValue::Object(fields) => {
            proof {
                JsonValue::object_view(*fields);
            }
            let ghost all = entries_view(fields@);
            let mut i: usize = 0;
            assert(all.skip(0) =~= all);
            while i < fields.len() && !str_eq(fields[i].0.as_str(), "children")
                invariant
                    0 <= i <= fields@.len(),
                    all == entries_view(fields@),
                    key_index(all, "children"@) == i + key_index(all.skip(i as int), "children"@),
                decreases fields@.len() - i,
            {
                assert(all.skip(i as int)[0] == all[i as int]);
                assert(all.skip(i as int).drop_first() =~= all.skip(i + 1));
                i = i + 1;
            }
            if i < fields.len() {
                proof {
                    assert(all.skip(i as int)[0] == all[i as int]);
                    entry_is_smaller(*item, i as int);
                    reveal_strlit("");
                    assert(""@ =~= Seq::empty());
                }
                let name = item.str_or("name", "");
                return flatten_document_symbols(&fields[i].1, Some(name.as_str()));
            }
        },
        _ => {},
    }
    let out: Vec<CachedSymbol> = Vec::new();
    assert(seen(out@) =~= Seq::empty());
    out
}

/// The files with one of the extensions are selected, and no others.
pub proof fn all_sources_are_selected(files: Seq<Seq<char>>, extensions: Seq<Seq<char>>)
    ensures
        with_extensions(files, extensions) == files.filter(|f: Seq<char>| extension(f) is Some && extensions.contains(extension(f)->Some_0)),
    decreases files.len(),
{
    reveal(Seq::filter);
    let p = |f: Seq<char>| extension(f) is Some && extensions.contains(extension(f)->Some_0);
    if files.len() > 0 {
        all_sources_are_selected(files.drop_last(), extensions);
    } else {
        assert(with_extensions(files, extensions) =~= Seq::empty());
    }
}

/// The files whose stored hash is not their hash are indexed, in order, each under its path as seen from
/// the project root.
pub proof fn files_without_their_hash_are_indexed(files: Seq<(Seq<char>, Seq<char>)>, stored: Seq<(Seq<char>, Seq<char>)>, root: Seq<char>)
    ensures
        to_index(files, stored, root) == files.filter(|f: (Seq<char>, Seq<char>)| stored_under(stored, relative_or_self(f.0, root)) != Some(f.1)).map_values(|f: (Seq<char>, Seq<char>)| Source { abs_path: f.0, rel_path: relative_or_self(f.0, root), hash: f.1 }),
    decreases files.len(),
{
    reveal(Seq::filter);
    let p = |f: (Seq<char>, Seq<char>)| stored_under(stored, relative_or_self(f.0, root)) != Some(f.1);
    let make = |f: (Seq<char>, Seq<char>)| Source { abs_path: f.0, rel_path: relative_or_self(f.0, root), hash: f.1 };
    if files.len() > 0 {
        files_without_their_hash_are_indexed(files.drop_last(), stored, root);
        let rest = files.drop_last().filter(p);
        if p(files.last()) {
            assert(rest.push(files.last()).map_values(make) =~= rest.map_values(make).push(make(files.last())));
        }
    } else {
        assert(files.filter(p).map_values(make) =~= Seq::empty());
    }
}

/// The last hash that is stored for a path counts.
pub proof fn last_stored_hash_counts(s: Seq<(Seq<char>, Seq<char>)>, key: Seq<char>, i: int)
    requires
        -1 <= i < s.len(),
        i >= 0 ==> s[i].0 == key,
        forall|j: int| i < j < s.len() ==> (#[trigger] s[j]).0 != key,
    ensures
        i >= 0 ==> stored_under(s, key) == Some(s[i].1),
        i < 0 ==> stored_under(s, key) is None,
    decreases s.len(),
{
    if i < s.len() - 1 {
        let init = s.drop_last();
        assert(s[s.len() - 1].0 != key);
        assert forall|j: int| i < j < init.len() implies (#[trigger] init[j]).0 != key by {
            assert(init[j] == s[j]);
        }
        if i >= 0 {
            assert(init[i] == s[i]);
        }
        last_stored_hash_counts(init, key, i);
    }
}

/// The rows of a document have one for each symbol, with its name, its kind, its range and the name of the
/// symbol that it lies in; those of the symbols inside it follow.
pub proof fn all_symbols_have_rows(
    before: Seq<Json>,
    item: Json,
    parent: Option<Seq<char>>,
    start: (int, int),
    end: (int, int),
)
    requires
        item.get3("range"@, "start"@, "line"@) == Some(Json::Int(start.0)),
        item.get3("range"@, "start"@, "character"@) == Some(Json::Int(start.1)),
        item.get3("range"@, "end"@, "line"@) == Some(Json::Int(end.0)),
        item.get3("range"@, "end"@, "character"@) == Some(Json::Int(end.1)),
        0 <= start.0 <= u32::MAX,
        0 <= start.1 <= u32::MAX,
        0 <= end.0 <= u32::MAX,
        0 <= end.1 <= u32::MAX,
    ensures
        ({
            let name = item.str_or("name"@, Seq::empty());
            let row = Row {
                name,
                kind: kind_name(item.u64_or("kind"@, 0)),
                path: Seq::empty(),
                range_start_line: start.0 as u32,
                range_start_col: start.1 as u32,
                range_end_line: end.0 as u32,
                range_end_col: end.1 as u32,
                parent_name: parent,
            };
            let inside = match item.get("children"@) {
                Some(Json::Arr(children)) => flat(Json::Arr(children), Some(name)),
                _ => Seq::empty(),
            };
            flat(Json::Arr(before.push(item)), parent) == flat(Json::Arr(before), parent) + seq![row] + inside
        }),
        flat(Json::Arr(Seq::empty()), parent).len() == 0,
{
    let all = before.push(item);
    assert(all.drop_last() =~= before);
    assert(all.last() == item);
    match item {
        Json::Obj(fields) => {
            let i = key_index(fields, "children"@);
            if 0 <= i < fields.len() {
                match fields[i].1 {
                    Json::Arr(_) => {},
                    _ => {
                        assert(rows_below(item) =~= Seq::empty());
                    },
                }
            } else {
                assert(rows_below(item) =~= Seq::empty());
            }
        },
        _ => {
            assert(rows_below(item) =~= Seq::empty());
        },
    }
}

} // verus!
