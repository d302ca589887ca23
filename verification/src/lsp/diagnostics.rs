//! Diagnostics that language servers publish, kept by file.

use crate::commands::workspace_edit::{uri_path, uri_to_path};
use crate::json::{jsons, Json, JsonValue};
use crate::paths::components;
use crate::text::{decimal, decimal_of, opt_view};
use dashmap::DashMap;
use std::path::PathBuf;
use vstd::prelude::*;

verus! {

/// Severity of a diagnostic, ordered from most to least severe.
#[derive(Debug, Clone, Copy, PartialEq, Eq, PartialOrd, Ord, Structural)]
pub enum DiagSeverity {
    Error,
    Warning,
    Information,
    Hint,
}

impl DiagSeverity {
    /// The severity of a number of the protocol.
    pub open spec fn of_number(raw: Option<u64>) -> DiagSeverity {
        match raw {
            Some(n) => if n == 1 {
                DiagSeverity::Error
            } else if n == 2 {
                DiagSeverity::Warning
            } else if n == 3 {
                DiagSeverity::Information
            } else {
                DiagSeverity::Hint
            },
            None => DiagSeverity::Hint,
        }
    }

    /// Place in the order of severity; errors come first.
    pub open spec fn level(self) -> int {
        match self {
            DiagSeverity::Error => 1,
            DiagSeverity::Warning => 2,
            DiagSeverity::Information => 3,
            DiagSeverity::Hint => 4,
        }
    }

    /// The short label.
    pub open spec fn tag(self) -> Seq<char> {
        match self {
            DiagSeverity::Error => "error"@,
            DiagSeverity::Warning => "warn"@,
            DiagSeverity::Information => "info"@,
            DiagSeverity::Hint => "hint"@,
        }
    }

    /// Reads the severity of the protocol; anything unknown counts as a hint.
    pub fn from_lsp(raw: Option<u64>) -> (r: DiagSeverity)
        ensures
            r == DiagSeverity::of_number(raw),
    {
        match raw {
            Some(n) => if n == 1 {
                DiagSeverity::Error
            } else if n == 2 {
                DiagSeverity::Warning
            } else if n == 3 {
                DiagSeverity::Information
            } else {
                DiagSeverity::Hint
            },
            None => DiagSeverity::Hint,
        }
    }

    /// The number of the protocol.
    pub fn number(&self) -> (r: u64)
        ensures
            r == self.level(),
    {
        match self {
            DiagSeverity::Error => 1,
            DiagSeverity::Warning => 2,
            DiagSeverity::Information => 3,
            DiagSeverity::Hint => 4,
        }
    }

    /// Short label for compact output.
    pub fn label(&self) -> (r: &'static str)
        ensures
            r@ == self.tag(),
    {
        match self {
            DiagSeverity::Error => "error",
            DiagSeverity::Warning => "warn",
            DiagSeverity::Information => "info",
            DiagSeverity::Hint => "hint",
        }
    }
}

/// A single diagnostic from a language server.
#[derive(Debug, Clone)]
pub struct DiagnosticEntry {
    pub severity: DiagSeverity,
    /// Line, counted from 0.
    pub line: u32,
    /// Column, counted from 0.
    pub col: u32,
    pub code: Option<String>,
    pub message: String,
}

/// The mathematical value of a [`DiagnosticEntry`].
#[verifier::ext_equal]
pub struct Diagnostic {
    pub severity: DiagSeverity,
    pub line: u32,
    pub col: u32,
    pub code: Option<Seq<char>>,
    pub message: Seq<char>,
}

impl View for DiagnosticEntry {
    type V = Diagnostic;

    open spec fn view(&self) -> Diagnostic {
        Diagnostic {
            severity: self.severity,
            line: self.line,
            col: self.col,
            code: opt_view(self.code),
            message: self.message@,
        }
    }
}

/// The mathematical values of a list of diagnostics.
pub open spec fn diagnostics(v: Seq<DiagnosticEntry>) -> Seq<Diagnostic> {
    Seq::new(v.len(), |i: int| v[i]@)
}

// ── The store ───────────────────────────────────────────────────────────────

#[verifier::external_type_specification]
#[verifier::external_body]
pub struct ExPathBuf(std::path::PathBuf);

#[verifier::external_type_specification]
#[verifier::external_body]
#[verifier::reject_recursive_types(K)]
#[verifier::reject_recursive_types(V)]
#[verifier::reject_recursive_types(S)]
pub struct ExDashMap<K, V, S>(dashmap::DashMap<K, V, S>);

/// What the map holds: for the components of a path, the path as it was first given and the
/// diagnostics of that file.
pub uninterp spec fn held(m: DashMap<PathBuf, Vec<DiagnosticEntry>>) -> Map<Seq<Seq<char>>, (Seq<char>, Seq<Diagnostic>)>;

/// No diagnostics for any file.
pub open spec fn no_files() -> Map<Seq<Seq<char>>, (Seq<char>, Seq<Diagnostic>)> {
    Map::empty()
}

/// `DashMap::new`: a map that holds nothing.
#[verifier::external_body]
fn new_map() -> (r: DashMap<PathBuf, Vec<DiagnosticEntry>>)
    ensures
        held(r) == no_files(),
{
    DashMap::new()
}

/// The path under which the diagnostics of a file are held: the one they are held under already, or
/// else `path`.
pub open spec fn kept_path(m: Map<Seq<Seq<char>>, (Seq<char>, Seq<Diagnostic>)>, path: Seq<char>) -> Seq<char> {
    if m.contains_key(components(path)) {
        m[components(path)].0
    } else {
        path
    }
}

/// `DashMap::insert`: the value takes the place of what was held for the key, and the key that was
/// there stays. Two paths are the same key where they have the same components.
#[verifier::external_body]
fn map_insert(m: &mut DashMap<PathBuf, Vec<DiagnosticEntry>>, path: &str, diags: Vec<DiagnosticEntry>)
    ensures
        held(*final(m)) == held(*old(m)).insert(
            components(path@),
            (kept_path(held(*old(m)), path@), diagnostics(diags@)),
        ),
{
    m.insert(PathBuf::from(path), diags);
}

/// `DashMap::remove`: nothing is held for the key any more.
#[verifier::external_body]
fn map_remove(m: &mut DashMap<PathBuf, Vec<DiagnosticEntry>>, path: &str)
    ensures
        held(*final(m)) == held(*old(m)).remove(components(path@)),
{
    m.remove(&PathBuf::from(path));
}

/// `DashMap::get`: a copy of what is held for the key.
#[verifier::external_body]
fn map_get(m: &DashMap<PathBuf, Vec<DiagnosticEntry>>, path: &str) -> (r: Option<Vec<DiagnosticEntry>>)
    ensures
        match r {
            Some(v) => held(*m).contains_key(components(path@)) && diagnostics(v@) == held(*m)[components(path@)].1,
            None => !held(*m).contains_key(components(path@)),
        },
{
    m.get(&PathBuf::from(path)).map(|v| v.clone())
}

/// The files with their diagnostics are just what the map holds, each once and under its path.
pub open spec fn is_listing(
    files: Seq<(Seq<char>, Seq<Diagnostic>)>,
    m: Map<Seq<Seq<char>>, (Seq<char>, Seq<Diagnostic>)>,
) -> bool {
    &&& forall|i: int|
        0 <= i < files.len() ==> m.contains_key(components((#[trigger] files[i]).0)) && m[components(files[i].0)]
            == files[i]
    &&& forall|k: Seq<Seq<char>>|
        m.contains_key(k) ==> exists|i: int| 0 <= i < files.len() && components((#[trigger] files[i]).0) == k
    &&& forall|i: int, j: int|
        0 <= i < j < files.len() ==> components((#[trigger] files[i]).0) != components((#[trigger] files[j]).0)
}

/// The views of files with their diagnostics.
pub open spec fn file_views(v: Seq<(String, Vec<DiagnosticEntry>)>) -> Seq<(Seq<char>, Seq<Diagnostic>)> {
    Seq::new(v.len(), |i: int| (v[i].0@, diagnostics(v[i].1@)))
}

/// `DashMap::iter`: copies of all that is held, each key once, in no particular order.
#[verifier::external_body]
fn map_list(m: &DashMap<PathBuf, Vec<DiagnosticEntry>>) -> (r: Vec<(String, Vec<DiagnosticEntry>)>)
    ensures
        is_listing(file_views(r@), held(*m)),
{
    m.iter().map(|e| (e.key().to_string_lossy().into_owned(), e.value().clone())).collect()
}

/// Per-file diagnostic store.
///
/// Each update replaces what was stored for the file.
pub struct DiagnosticStore {
    inner: DashMap<PathBuf, Vec<DiagnosticEntry>>,
}

impl View for DiagnosticStore {
    type V = Map<Seq<Seq<char>>, (Seq<char>, Seq<Diagnostic>)>;

    closed spec fn view(&self) -> Map<Seq<Seq<char>>, (Seq<char>, Seq<Diagnostic>)> {
        held(self.inner)
    }
}

/// The diagnostics stored for a path.
pub open spec fn stored(m: Map<Seq<Seq<char>>, (Seq<char>, Seq<Diagnostic>)>, path: Seq<char>) -> Seq<Diagnostic> {
    if m.contains_key(components(path)) {
        m[components(path)].1
    } else {
        Seq::empty()
    }
}

/// The store after an update: no file is kept without diagnostics.
pub open spec fn updated(
    m: Map<Seq<Seq<char>>, (Seq<char>, Seq<Diagnostic>)>,
    path: Seq<char>,
    diags: Seq<Diagnostic>,
) -> Map<Seq<Seq<char>>, (Seq<char>, Seq<Diagnostic>)> {
    if diags.len() == 0 {
        m.remove(components(path))
    } else {
        m.insert(components(path), (kept_path(m, path), diags))
    }
}

impl DiagnosticStore {
    /// An empty store.
    pub fn new() -> (r: DiagnosticStore)
        ensures
            r@ == no_files(),
    {
        DiagnosticStore { inner: new_map() }
    }

    /// Replaces all diagnostics for `path`. Passing an empty list removes the entry.
    pub fn update(&mut self, path: &str, diags: Vec<DiagnosticEntry>)
        ensures
            final(self)@ == updated(old(self)@, path@, diagnostics(diags@)),
    {
        if diags.len() == 0 {
            map_remove(&mut self.inner, path);
        } else {
            map_insert(&mut self.inner, path, diags);
        }
    }

    /// All diagnostics for `path`, or none.
    pub fn get(&self, path: &str) -> (r: Vec<DiagnosticEntry>)
        ensures
            diagnostics(r@) == stored(self@, path@),
    {
        match map_get(&self.inner, path) {
            Some(v) => v,
            None => {
                let v: Vec<DiagnosticEntry> = Vec::new();
                assert(diagnostics(v@) =~= Seq::empty());
                v
            },
        }
    }

    /// All diagnostics across all files, in no particular order of files.
    pub fn get_all(&self) -> (r: Vec<(String, Vec<DiagnosticEntry>)>)
        ensures
            is_listing(file_views(r@), self@),
    {
        map_list(&self.inner)
    }

    /// Removes the diagnostics of a file.
    pub fn clear(&mut self, path: &str)
        ensures
            final(self)@ == old(self)@.remove(components(path@)),
    {
        map_remove(&mut self.inner, path);
    }

    /// Total number of diagnostic entries across all files.
    pub fn total_count(&self) -> (r: usize)
        requires
            entry_count(self@) <= usize::MAX,
        ensures
            r == entry_count(self@),
    {
        let files = self.get_all();
        let ghost all = file_views(files@);
        proof {
            listing_count(all, self@);
        }
        let mut count: usize = 0;
        let mut i: usize = 0;
        assert(all.take(0) =~= Seq::empty());
        while i < files.len()
            invariant
                0 <= i <= files@.len(),
                all == file_views(files@),
                list_count(all) <= usize::MAX,
                count == list_count(all.take(i as int)),
            decreases files@.len() - i,
        {
            proof {
                list_count_mono(all, i + 1);
                assert(all.take(i + 1).drop_last() =~= all.take(i as int));
                assert(all.take(i + 1).last() == all[i as int]);
            }
            count = count + files[i].1.len();
            i = i + 1;
        }
        assert(all.take(i as int) =~= all);
        count
    }
}

/// Number of diagnostics in a list of files.
pub open spec fn list_count(files: Seq<(Seq<char>, Seq<Diagnostic>)>) -> nat
    decreases files.len(),
{
    if files.len() == 0 {
        0
    } else {
        list_count(files.drop_last()) + files.last().1.len()
    }
}

/// Number of diagnostics of all files together.
pub open spec fn entry_count(m: Map<Seq<Seq<char>>, (Seq<char>, Seq<Diagnostic>)>) -> nat
    decreases m.dom().len(),
    when m.dom().finite()
{
    if m.dom().len() == 0 {
        0
    } else {
        let k = m.dom().choose();
        m[k].1.len() + entry_count(m.remove(k))
    }
}

proof fn list_count_mono(files: Seq<(Seq<char>, Seq<Diagnostic>)>, n: int)
    requires
        0 <= n <= files.len(),
    ensures
        list_count(files.take(n)) <= list_count(files),
    decreases files.len() - n,
{
    if n < files.len() {
        list_count_mono(files, n + 1);
        assert(files.take(n + 1).drop_last() =~= files.take(n));
    } else {
        assert(files.take(n) =~= files);
    }
}

/// Counting may take any file out first.
proof fn entry_count_remove(m: Map<Seq<Seq<char>>, (Seq<char>, Seq<Diagnostic>)>, k: Seq<Seq<char>>)
    requires
        m.dom().finite(),
        m.contains_key(k),
    ensures
        entry_count(m) == m[k].1.len() + entry_count(m.remove(k)),
    decreases m.dom().len(),
{
    assert(m.dom().len() > 0) by {
        if m.dom().len() == 0 {
            assert(m.dom() =~= Set::empty());
        }
    }
    let c = m.dom().choose();
    assert(m.dom().contains(c));
    if c != k {
        let without_c = m.remove(c);
        assert(without_c.dom() =~= m.dom().remove(c));
        assert(m.remove(k).dom() =~= m.dom().remove(k));
        entry_count_remove(without_c, k);
        entry_count_remove(m.remove(k), c);
        assert(without_c.remove(k) =~= m.remove(k).remove(c));
    }
}

/// Counting what is listed and counting what is stored is the same.
proof fn listing_count(files: Seq<(Seq<char>, Seq<Diagnostic>)>, m: Map<Seq<Seq<char>>, (Seq<char>, Seq<Diagnostic>)>)
    requires
        is_listing(files, m),
    ensures
        m.dom().finite(),
        entry_count(m) == list_count(files),
    decreases files.len(),
{
    if files.len() == 0 {
        assert(m.dom() =~= Set::empty());
    } else {
        let init = files.drop_last();
        let k = components(files.last().0);
        let rest = m.remove(k);
        let n = files.len() - 1;
        assert(files[n] == files.last());
        assert forall|i: int| 0 <= i < init.len() implies rest.contains_key(components((#[trigger] init[i]).0))
            && rest[components(init[i].0)] == init[i] by {
            assert(files[i] == init[i]);
            assert(components(files[i].0) != components(files[n].0));
        }
        assert forall|q: Seq<Seq<char>>| rest.contains_key(q) implies exists|i: int|
            0 <= i < init.len() && components((#[trigger] init[i]).0) == q by {
            let i = choose|i: int| 0 <= i < files.len() && components((#[trigger] files[i]).0) == q;
            assert(i != n);
            assert(init[i] == files[i]);
        }
        assert forall|i: int, j: int| 0 <= i < j < init.len() implies components((#[trigger] init[i]).0)
            != components((#[trigger] init[j]).0) by {
            assert(init[i] == files[i] && init[j] == files[j]);
        }
        listing_count(init, rest);
        assert(m.dom() =~= rest.dom().insert(k));
        entry_count_remove(m, k);
    }
}

// ── Reading what servers publish ────────────────────────────────────────────

/// The number under `key` of a position, or 0 where there is none or it is too large.
pub open spec fn position_part(start: Option<Json>, key: Seq<char>) -> u32 {
    match start {
        Some(s) => if s.u64_or(key, 0) <= u32::MAX {
            s.u64_or(key, 0) as u32
        } else {
            0
        },
        None => 0,
    }
}

/// One diagnostic of the protocol, where it has a message.
pub open spec fn parsed_diagnostic(v: Json) -> Option<Diagnostic> {
    let start = v.get2("range"@, "start"@);
    match v.get("message"@) {
        Some(Json::Str(message)) => Some(
            Diagnostic {
                severity: DiagSeverity::of_number(
                    match v.get("severity"@) {
                        Some(n) => n.as_u64(),
                        None => None,
                    },
                ),
                line: position_part(start, "line"@),
                col: position_part(start, "character"@),
                code: match v.get("code"@) {
                    Some(c) => match c {
                        Json::Str(s) => Some(s),
                        _ => match c.as_u64() {
                            Some(n) => Some(decimal(n as nat)),
                            None => None,
                        },
                    },
                    None => None,
                },
                message,
            },
        ),
        _ => None,
    }
}

/// The diagnostics of the protocol that have a message.
pub open spec fn parsed_diagnostics(items: Seq<Json>) -> Seq<Diagnostic>
    decreases items.len(),
{
    if items.len() == 0 {
        Seq::empty()
    } else {
        match parsed_diagnostic(items.last()) {
            Some(d) => parsed_diagnostics(items.drop_last()).push(d),
            None => parsed_diagnostics(items.drop_last()),
        }
    }
}

fn read_position_part(start: Option<&JsonValue>, key: &str) -> (r: u32)
    ensures
        r == position_part(
            match start {
                Some(s) => Some(s@),
                None => None,
            },
            key@,
        ),
{
    match start {
        Some(s) => {
            let n: u64 = s.u64_or(key, 0);
            if n <= 0xffff_ffff {
                n as u32
            } else {
                0
            }
        },
        None => 0,
    }
}

/// Reads one diagnostic of the protocol; one without a message is none.
pub fn parse_entry(v: &JsonValue) -> (r: Option<DiagnosticEntry>)
    ensures
        match r {
            Some(d) => parsed_diagnostic(v@) == Some(d@),
            None => parsed_diagnostic(v@) is None,
        },
{
    let message = match v.get("message") {
        Some(m) => match m.as_str() {
            Some(s) => s.to_string(),
            None => {
                return None;
            },
        },
        None => {
            return None;
        },
    };
    let severity = match v.get("severity") {
        Some(n) => DiagSeverity::from_lsp(n.as_u64()),
        None => DiagSeverity::from_lsp(None),
    };
    let start = v.get2("range", "start");
    let line: u32 = read_position_part(start, "line");
    let col: u32 = read_position_part(start, "character");
    let code = match v.get("code") {
        Some(c) => match c.as_str() {
            Some(s) => Some(s.to_string()),
            None => match c.as_u64() {
                Some(n) => Some(decimal_of(n)),
                None => None,
            },
        },
        None => None,
    };
    Some(DiagnosticEntry { severity, line, col, code, message })
}

/// The store after a publication: nothing changes where it names no file.
pub open spec fn ingested(
    m: Map<Seq<Seq<char>>, (Seq<char>, Seq<Diagnostic>)>,
    params: Option<Json>,
) -> Map<Seq<Seq<char>>, (Seq<char>, Seq<Diagnostic>)> {
    match params {
        Some(p) => match p.get("uri"@) {
            Some(Json::Str(uri)) => updated(
                m,
                uri_path(uri),
                match p.get_array("diagnostics"@) {
                    Some(items) => parsed_diagnostics(items),
                    None => Seq::empty(),
                },
            ),
            _ => m,
        },
        None => m,
    }
}

/// Takes the parameters of a publication of diagnostics into the store.
pub fn ingest_publish_diagnostics(params: Option<&JsonValue>, store: &mut DiagnosticStore)
    ensures
        final(store)@ == ingested(
            old(store)@,
            match params {
                Some(p) => Some(p@),
                None => None,
            },
        ),
{
    if let Some(p) = params {
        if let Some(u) = p.get("uri") {
            if let Some(uri) = u.as_str() {
                let path = uri_to_path(uri);
                let mut entries: Vec<DiagnosticEntry> = Vec::new();
                assert(diagnostics(entries@) =~= Seq::empty());
                if let Some(items) = p.get_array("diagnostics") {
                    let ghost all = jsons(items@);
                    let mut i: usize = 0;
                    assert(all.take(0) =~= Seq::empty());
                    while i < items.len()
                        invariant
                            0 <= i <= items@.len(),
                            all == jsons(items@),
                            diagnostics(entries@) == parsed_diagnostics(all.take(i as int)),
                        decreases items@.len() - i,
                    {
                        assert(all.take(i + 1).drop_last() =~= all.take(i as int));
                        assert(all.take(i + 1).last() == items@[i as int]@);
                        if let Some(d) = parse_entry(&items[i]) {
                            let ghost before = diagnostics(entries@);
                            entries.push(d);
                            assert(diagnostics(entries@) =~= before.push(d@));
                        }
                        i = i + 1;
                    }
                    assert(all.take(i as int) =~= all);
                }
                store.update(path.as_str(), entries);
            }
        }
    }
}

// ── Laws ────────────────────────────────────────────────────────────────────

/// What was stored last for a file is what is read, and other files keep theirs.
pub proof fn update_is_read_back(
    m: Map<Seq<Seq<char>>, (Seq<char>, Seq<Diagnostic>)>,
    path: Seq<char>,
    diags: Seq<Diagnostic>,
    other: Seq<char>,
)
    ensures
        stored(updated(m, path, diags), path) == diags,
        components(other) != components(path) ==> stored(updated(m, path, diags), other) == stored(m, other),
{
    if diags.len() == 0 {
        assert(diags =~= Seq::empty());
    }
}

/// A store that keeps no file without diagnostics goes on to keep none.
pub proof fn update_keeps_no_empty_file(
    m: Map<Seq<Seq<char>>, (Seq<char>, Seq<Diagnostic>)>,
    path: Seq<char>,
    diags: Seq<Diagnostic>,
)
    requires
        forall|k: Seq<Seq<char>>| #[trigger] m.contains_key(k) ==> m[k].1.len() > 0,
    ensures
        forall|k: Seq<Seq<char>>|
            #[trigger] updated(m, path, diags).contains_key(k) ==> updated(m, path, diags)[k].1.len() > 0,
{
    let u = updated(m, path, diags);
    assert forall|k: Seq<Seq<char>>| #[trigger] u.contains_key(k) implies u[k].1.len() > 0 by {
        if k != components(path) {
            assert(m.contains_key(k));
        }
    }
}

/// A diagnostic of the protocol is read as it says: its message, its code, its severity and the place
/// where its range starts. Severities are numbered from one, errors first.
pub proof fn diagnostic_is_read_as_it_says(v: Json, severity: int, place: (int, int), message: Seq<char>)
    requires
        v.get("message"@) == Some(Json::Str(message)),
        v.get("severity"@) == Some(Json::Int(severity)),
        v.get3("range"@, "start"@, "line"@) == Some(Json::Int(place.0)),
        v.get3("range"@, "start"@, "character"@) == Some(Json::Int(place.1)),
        0 <= place.0 <= u32::MAX,
        0 <= place.1 <= u32::MAX,
    ensures
        parsed_diagnostic(v) matches Some(d) && {
            &&& d.message == message
            &&& d.line == place.0
            &&& d.col == place.1
            &&& d.severity is Error <==> severity == 1
            &&& d.severity is Warning <==> severity == 2
            &&& d.severity is Information <==> severity == 3
            &&& match v.get("code"@) {
                Some(Json::Str(code)) => d.code == Some(code),
                Some(Json::Int(n)) => 0 <= n <= u64::MAX ==> d.code == Some(decimal(n as nat)),
                _ => d.code is None,
            }
        },
{
}

/// Each diagnostic with a message is read, in order, and no other.
pub proof fn all_messages_are_read(items: Seq<Json>)
    ensures
        parsed_diagnostics(items) == items.filter(|v: Json| v.get("message"@) matches Some(Json::Str(_))).map_values(|v: Json| parsed_diagnostic(v)->Some_0),
    decreases items.len(),
{
    reveal(Seq::filter);
    let p = |v: Json| v.get("message"@) matches Some(Json::Str(_));
    let make = |v: Json| parsed_diagnostic(v)->Some_0;
    if items.len() > 0 {
        all_messages_are_read(items.drop_last());
        let rest = items.drop_last().filter(p);
        if p(items.last()) {
            assert(rest.push(items.last()).map_values(make) =~= rest.map_values(make).push(make(items.last())));
        }
    } else {
        assert(items.filter(p).map_values(make) =~= Seq::empty());
    }
}

/// A publication puts the diagnostics that it lists in place of those of the file that it names. The other
/// files keep theirs.
pub proof fn publication_replaces_diagnostics(
    m: Map<Seq<Seq<char>>, (Seq<char>, Seq<Diagnostic>)>,
    p: Json,
    uri: Seq<char>,
    items: Seq<Json>,
    other: Seq<char>,
)
    requires
        p.get("uri"@) == Some(Json::Str(uri)),
        p.get("diagnostics"@) == Some(Json::Arr(items)),
    ensures
        stored(ingested(m, Some(p)), uri_path(uri)) == items.filter(
            |v: Json| v.get("message"@) matches Some(Json::Str(_)),
        ).map_values(|v: Json| parsed_diagnostic(v)->Some_0),
        components(other) != components(uri_path(uri)) ==> stored(ingested(m, Some(p)), other) == stored(m, other),
{
    all_messages_are_read(items);
    update_is_read_back(m, uri_path(uri), parsed_diagnostics(items), other);
}

} // verus!
