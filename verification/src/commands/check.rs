//! Reporting diagnostics.

use crate::json::{entries_view, field, jsons, Json, JsonValue};
use crate::lsp::diagnostics::{
    diagnostics, file_views, is_listing, stored, DiagSeverity, Diagnostic, DiagnosticEntry, DiagnosticStore,
};
use crate::paths::{
    components, components_order, joined, path_before, path_join, path_lt, relative_or_self,
    relative_to,
};
use crate::sorting::{is_order, rank, seen, sort, sorted_by, sorting_is_stable, sorting_same_ties, tied_with, ties, Ranked};
use vstd::prelude::*;

verus! {

/// A diagnostic of a file.
pub struct FileDiagnostic {
    pub path: String,
    pub entry: DiagnosticEntry,
}

impl View for FileDiagnostic {
    type V = (Seq<char>, Diagnostic);

    open spec fn view(&self) -> (Seq<char>, Diagnostic) {
        (self.path@, self.entry@)
    }
}

/// Diagnostics stand by severity, then by path, then by line.
pub open spec fn diagnostic_before(a: (Seq<char>, Diagnostic), b: (Seq<char>, Diagnostic)) -> bool {
    if a.1.severity != b.1.severity {
        a.1.severity.level() < b.1.severity.level()
    } else if path_before(a.0, b.0) {
        true
    } else if path_before(b.0, a.0) {
        false
    } else {
        a.1.line < b.1.line
    }
}

impl Ranked for FileDiagnostic {
    open spec fn before(a: (Seq<char>, Diagnostic), b: (Seq<char>, Diagnostic)) -> bool {
        diagnostic_before(a, b)
    }

    fn is_before(&self, other: &FileDiagnostic) -> (r: bool) {
        if self.entry.severity != other.entry.severity {
            self.entry.severity.number() < other.entry.severity.number()
        } else if path_lt(self.path.as_str(), other.path.as_str()) {
            true
        } else if path_lt(other.path.as_str(), self.path.as_str()) {
            false
        } else {
            self.entry.line < other.entry.line
        }
    }
}

/// Severity, path and line put diagnostics in a strict weak order.
pub proof fn diagnostic_order()
    ensures
        is_order(rank::<FileDiagnostic>()),
{
    let lt = rank::<FileDiagnostic>();
    assert forall|a: (Seq<char>, Diagnostic), b: (Seq<char>, Diagnostic)| #[trigger] lt(a, b) implies !lt(b, a) by {
        components_order(components(a.0), components(b.0), components(a.0));
    }
    assert forall|a: (Seq<char>, Diagnostic), b: (Seq<char>, Diagnostic), c: (Seq<char>, Diagnostic)|
        #![trigger lt(a, b), lt(b, c)]
        #![trigger lt(a, b), lt(a, c)]
        #![trigger lt(b, c), lt(a, c)]
        !lt(a, b) && !lt(b, c) implies !lt(a, c) by {
        let (x, y, z) = (components(a.0), components(b.0), components(c.0));
        components_order(x, y, z);
        components_order(y, x, z);
        components_order(y, z, x);
        components_order(z, x, y);
        components_order(z, y, x);
        components_order(x, z, y);
    }
}

/// A diagnostic that is reported.
pub open spec fn is_reported(d: Diagnostic, errors_only: bool) -> bool {
    !errors_only || d.severity == DiagSeverity::Error
}

/// The diagnostics of one file that are reported, in order.
pub open spec fn reported_of_file(path: Seq<char>, ds: Seq<Diagnostic>, errors_only: bool) -> Seq<(
    Seq<char>,
    Diagnostic,
)>
    decreases ds.len(),
{
    if ds.len() == 0 {
        Seq::empty()
    } else {
        let rest = reported_of_file(path, ds.drop_last(), errors_only);
        if is_reported(ds.last(), errors_only) {
            rest.push((path, ds.last()))
        } else {
            rest
        }
    }
}

/// The diagnostics of all files that are reported, in order.
pub open spec fn reported(files: Seq<(Seq<char>, Seq<Diagnostic>)>, errors_only: bool) -> Seq<(Seq<char>, Diagnostic)>
    decreases files.len(),
{
    if files.len() == 0 {
        Seq::empty()
    } else {
        reported(files.drop_last(), errors_only) + reported_of_file(files.last().0, files.last().1, errors_only)
    }
}

/// A diagnostic as it is answered, with line and column counted from 1.
pub open spec fn diagnostic_json(d: (Seq<char>, Diagnostic), root: Seq<char>) -> Json {
    Json::Obj(
        seq![
            ("severity"@, Json::Str(d.1.severity.tag())),
            ("path"@, Json::Str(relative_or_self(d.0, root))),
            ("line"@, Json::Int(d.1.line.wrapping_add(1) as int)),
            ("col"@, Json::Int(d.1.col.wrapping_add(1) as int)),
            (
                "code"@,
                match d.1.code {
                    Some(c) => Json::Str(c),
                    None => Json::Null,
                },
            ),
            ("message"@, Json::Str(d.1.message)),
        ],
    )
}

/// Number of diagnostics of a severity.
pub open spec fn severity_count(s: Seq<(Seq<char>, Diagnostic)>, severity: DiagSeverity) -> nat
    decreases s.len(),
{
    if s.len() == 0 {
        0
    } else {
        severity_count(s.drop_last(), severity) + if s.last().1.severity == severity {
            1nat
        } else {
            0
        }
    }
}

/// The answer to a check: the diagnostics in order, and how many there are.
pub open spec fn check_json(s: Seq<(Seq<char>, Diagnostic)>, root: Seq<char>) -> Json {
    Json::Obj(
        seq![
            ("diagnostics"@, Json::Arr(Seq::new(s.len(), |i: int| diagnostic_json(s[i], root)))),
            ("total"@, Json::Int(s.len() as int)),
            ("errors"@, Json::Int(severity_count(s, DiagSeverity::Error) as int)),
            ("warnings"@, Json::Int(severity_count(s, DiagSeverity::Warning) as int)),
        ],
    )
}

/// The answer to a check of the files.
pub open spec fn check_answer(files: Seq<(Seq<char>, Seq<Diagnostic>)>, root: Seq<char>, errors_only: bool) -> Json {
    check_json(sorted_by(reported(files, errors_only), rank::<FileDiagnostic>()), root)
}

fn copy_entry(d: &DiagnosticEntry) -> (r: DiagnosticEntry)
    ensures
        r@ == d@,
{
    DiagnosticEntry {
        severity: d.severity,
        line: d.line,
        col: d.col,
        code: match &d.code {
            Some(c) => Some(c.clone()),
            None => None,
        },
        message: d.message.clone(),
    }
}

fn diagnostic_value(d: &FileDiagnostic, project_root: &str) -> (r: JsonValue)
    ensures
        r@ == diagnostic_json(d@, project_root@),
{
    let rel = relative_to(d.path.as_str(), project_root);
    let code = match &d.entry.code {
        Some(c) => JsonValue::String(c.clone()),
        None => JsonValue::Null,
    };
    let fields = vec![
        field("severity", JsonValue::str(d.entry.severity.label())),
        field("path", JsonValue::String(rel)),
        field("line", JsonValue::UInt(d.entry.line.wrapping_add(1) as u64)),
        field("col", JsonValue::UInt(d.entry.col.wrapping_add(1) as u64)),
        field("code", code),
        field("message", JsonValue::String(d.entry.message.clone())),
    ];
    assert(entries_view(fields@) =~= diagnostic_json(d@, project_root@)->Obj_0);
    JsonValue::object(fields)
}

/// Reports the diagnostics of files: sorted by severity, then path, then line, with paths relative
/// to the project root.
pub fn check_report(
    files: &Vec<(String, Vec<DiagnosticEntry>)>,
    project_root: &str,
    errors_only: bool,
) -> (r: JsonValue)
    ensures
        r@ == check_answer(file_views(files@), project_root@, errors_only),
{
    let ghost all = file_views(files@);
    let mut picked: Vec<FileDiagnostic> = Vec::new();
    let mut i: usize = 0;
    assert(all.take(0) =~= Seq::empty());
    assert(seen(picked@) =~= Seq::empty());
    while i < files.len()
        invariant
            0 <= i <= files@.len(),
            all == file_views(files@),
            seen(picked@) == reported(all.take(i as int), errors_only),
        decreases files@.len() - i,
    {
        let path = &files[i].0;
        let ds = &files[i].1;
        let ghost dv = diagnostics(ds@);
        let ghost start = seen(picked@);
        assert(all.take(i + 1).drop_last() =~= all.take(i as int));
        assert(all.take(i + 1).last() == (path@, dv));
        let mut j: usize = 0;
        assert(dv.take(0) =~= Seq::empty());
        assert(seen(picked@) =~= start + reported_of_file(path@, dv.take(0), errors_only));
        while j < ds.len()
            invariant
                0 <= j <= ds@.len(),
                dv == diagnostics(ds@),
                seen(picked@) == start + reported_of_file(path@, dv.take(j as int), errors_only),
            decreases ds@.len() - j,
        {
            let d = &ds[j];
            assert(dv.take(j + 1).drop_last() =~= dv.take(j as int));
            assert(dv.take(j + 1).last() == d@);
            if !errors_only || d.severity == DiagSeverity::Error {
                let ghost before = seen(picked@);
                let f = FileDiagnostic { path: path.clone(), entry: copy_entry(d) };
                let ghost v = f@;
                picked.push(f);
                assert(seen(picked@) =~= before.push(v));
                assert(seen(picked@) =~= start + reported_of_file(path@, dv.take(j + 1), errors_only));
            }
            j = j + 1;
        }
        assert(dv.take(j as int) =~= dv);
        i = i + 1;
    }
    assert(all.take(i as int) =~= all);
    let ordered = sort(picked);
    let ghost s = seen(ordered@);
    let mut items: Vec<JsonValue> = Vec::new();
    let mut errors: usize = 0;
    let mut warnings: usize = 0;
    let total: usize = ordered.len();
    let mut k: usize = 0;
    assert(s.take(0) =~= Seq::empty());
    while k < total
        invariant
            0 <= k <= total,
            total == ordered@.len(),
            s == seen(ordered@),
            items@.len() == k,
            forall|x: int| 0 <= x < k ==> (#[trigger] items@[x])@ == diagnostic_json(s[x], project_root@),
            errors == severity_count(s.take(k as int), DiagSeverity::Error),
            warnings == severity_count(s.take(k as int), DiagSeverity::Warning),
            errors <= k,
            warnings <= k,
        decreases total - k,
    {
        let d = &ordered[k];
        assert(s.take(k + 1).drop_last() =~= s.take(k as int));
        assert(s.take(k + 1).last() == d@);
        if d.entry.severity == DiagSeverity::Error {
            errors = errors + 1;
        } else if d.entry.severity == DiagSeverity::Warning {
            warnings = warnings + 1;
        }
        items.push(diagnostic_value(d, project_root));
        k = k + 1;
    }
    assert(s.take(k as int) =~= s);
    let fields = vec![
        field("diagnostics", JsonValue::array(items)),
        field("total", JsonValue::number(total)),
        field("errors", JsonValue::number(errors)),
        field("warnings", JsonValue::number(warnings)),
    ];
    assert(jsons(items@) =~= Seq::new(s.len(), |x: int| diagnostic_json(s[x], project_root@)));
    assert(entries_view(fields@) =~= check_json(s, project_root@)->Obj_0);
    JsonValue::object(fields)
}

/// Reports the stored diagnostics: of one file, or of all, whatever the order in which the store
/// gives its files out.
pub fn handle_check(path: Option<&str>, store: &DiagnosticStore, project_root: &str, errors_only: bool) -> (r: JsonValue)
    ensures
        match path {
            Some(p) => {
                let abs = joined(project_root@, p@);
                r@ == check_answer(seq![(abs, stored(store@, abs))], project_root@, errors_only)
            },
            None => {
                &&& exists|files: Seq<(Seq<char>, Seq<Diagnostic>)>| #[trigger] is_listing(files, store@)
                &&& forall|files: Seq<(Seq<char>, Seq<Diagnostic>)>| #[trigger]
                    is_listing(files, store@) ==> r@ == check_answer(files, project_root@, errors_only)
            },
        },
{
    match path {
        Some(p) => {
            let abs = path_join(project_root, p);
            let ds = store.get(abs.as_str());
            let ghost abs_view = abs@;
            let files = vec![(abs, ds)];
            assert(file_views(files@) =~= seq![(abs_view, stored(store@, abs_view))]);
            check_report(&files, project_root, errors_only)
        },
        None => {
            let files = store.get_all();
            proof {
                let here = file_views(files@);
                assert forall|others: Seq<(Seq<char>, Seq<Diagnostic>)>| #[trigger]
                    is_listing(others, store@) implies check_answer(here, project_root@, errors_only) == check_answer(
                    others,
                    project_root@,
                    errors_only,
                ) by {
                    listings_agree(here, others, store@);
                    listings_agree(others, here, store@);
                    check_ignores_file_order(here, others, project_root@, errors_only);
                }
            }
            check_report(&files, project_root, errors_only)
        },
    }
}

/// Whether an answer to a check counts errors: the command then fails.
pub fn has_errors(data: Option<&JsonValue>) -> (r: bool)
    ensures
        r == match data {
            Some(d) => d@.u64_or("errors"@, 0) > 0,
            None => false,
        },
{
    match data {
        Some(d) => d.u64_or("errors", 0) > 0,
        None => false,
    }
}

// ── Laws ────────────────────────────────────────────────────────────────────

/// What is reported of a file and tied with `z` is only of the file of `z`.
proof fn file_ties(path: Seq<char>, ds: Seq<Diagnostic>, errors_only: bool, z: (Seq<char>, Diagnostic))
    ensures
        components(path) != components(z.0) ==> ties(
            reported_of_file(path, ds, errors_only),
            z,
            rank::<FileDiagnostic>(),
        ).len() == 0,
    decreases ds.len(),
{
    let lt = rank::<FileDiagnostic>();
    let r = reported_of_file(path, ds, errors_only);
    reveal(Seq::filter);
    if ds.len() > 0 {
        file_ties(path, ds.drop_last(), errors_only, z);
        components_order(components(path), components(z.0), components(path));
        if is_reported(ds.last(), errors_only) {
            assert(r.drop_last() =~= reported_of_file(path, ds.drop_last(), errors_only));
            assert(r.last() == (path, ds.last()));
        }
    }
}

/// What is reported and tied with `z` comes from the one file with the path of `z`.
proof fn reported_ties(files: Seq<(Seq<char>, Seq<Diagnostic>)>, errors_only: bool, z: (Seq<char>, Diagnostic))
    requires
        forall|i: int, j: int|
            0 <= i < j < files.len() ==> components((#[trigger] files[i]).0) != components((#[trigger] files[j]).0),
    ensures
        forall|i: int|
            0 <= i < files.len() && components((#[trigger] files[i]).0) == components(z.0) ==> ties(
                reported(files, errors_only),
                z,
                rank::<FileDiagnostic>(),
            ) == ties(reported_of_file(files[i].0, files[i].1, errors_only), z, rank::<FileDiagnostic>()),
        (forall|i: int| 0 <= i < files.len() ==> components((#[trigger] files[i]).0) != components(z.0)) ==> ties(
            reported(files, errors_only),
            z,
            rank::<FileDiagnostic>(),
        ) == Seq::<(Seq<char>, Diagnostic)>::empty(),
    decreases files.len(),
{
    let lt = rank::<FileDiagnostic>();
    let all = reported(files, errors_only);
    if files.len() == 0 {
        reveal(Seq::filter);
        assert(ties(all, z, lt) =~= Seq::empty());
    } else {
        let init = files.drop_last();
        let n = files.len() - 1;
        let last = files[n];
        assert forall|i: int, j: int| 0 <= i < j < init.len() implies components((#[trigger] init[i]).0)
            != components((#[trigger] init[j]).0) by {
            assert(init[i] == files[i] && init[j] == files[j]);
        }
        reported_ties(init, errors_only, z);
        let a = reported(init, errors_only);
        let b = reported_of_file(last.0, last.1, errors_only);
        Seq::filter_distributes_over_add(a, b, tied_with(z, lt));
        assert(ties(all, z, lt) == ties(a, z, lt) + ties(b, z, lt));
        if components(last.0) == components(z.0) {
            assert forall|i: int| 0 <= i < init.len() implies components((#[trigger] init[i]).0) != components(z.0) by {
                assert(init[i] == files[i]);
                assert(components(files[i].0) != components(files[n].0));
            }
            assert(ties(all, z, lt) =~= ties(b, z, lt));
            assert forall|i: int| 0 <= i < files.len() && components((#[trigger] files[i]).0) == components(
                z.0,
            ) implies ties(all, z, lt) == ties(reported_of_file(files[i].0, files[i].1, errors_only), z, lt) by {
                if i < n {
                    assert(components(files[i].0) != components(files[n].0));
                }
            }
        } else {
            file_ties(last.0, last.1, errors_only, z);
            assert(ties(all, z, lt) =~= ties(a, z, lt));
            assert forall|i: int| 0 <= i < files.len() && components((#[trigger] files[i]).0) == components(
                z.0,
            ) implies ties(all, z, lt) == ties(reported_of_file(files[i].0, files[i].1, errors_only), z, lt) by {
                assert(init[i] == files[i]);
            }
            if forall|i: int| 0 <= i < files.len() ==> components((#[trigger] files[i]).0) != components(z.0) {
                assert forall|i: int| 0 <= i < init.len() implies components((#[trigger] init[i]).0) != components(
                    z.0,
                ) by {
                    assert(init[i] == files[i]);
                }
            }
        }
    }
}

/// What one listing of the stored diagnostics holds, each other one holds.
proof fn listings_agree(
    files: Seq<(Seq<char>, Seq<Diagnostic>)>,
    others: Seq<(Seq<char>, Seq<Diagnostic>)>,
    m: Map<Seq<Seq<char>>, (Seq<char>, Seq<Diagnostic>)>,
)
    requires
        is_listing(files, m),
        is_listing(others, m),
    ensures
        forall|i: int| 0 <= i < files.len() ==> others.contains(#[trigger] files[i]),
{
    assert forall|i: int| 0 <= i < files.len() implies others.contains(#[trigger] files[i]) by {
        let k = components(files[i].0);
        let j = choose|j: int| 0 <= j < others.len() && components((#[trigger] others[j]).0) == k;
        assert(others[j] == files[i]);
    }
}

/// A check of the same files, each given once, answers the same in whatever order they are given.
pub proof fn check_ignores_file_order(
    files: Seq<(Seq<char>, Seq<Diagnostic>)>,
    others: Seq<(Seq<char>, Seq<Diagnostic>)>,
    root: Seq<char>,
    errors_only: bool,
)
    requires
        forall|i: int, j: int|
            0 <= i < j < files.len() ==> components((#[trigger] files[i]).0) != components((#[trigger] files[j]).0),
        forall|i: int, j: int|
            0 <= i < j < others.len() ==> components((#[trigger] others[i]).0) != components((#[trigger] others[j]).0),
        forall|i: int| 0 <= i < files.len() ==> others.contains(#[trigger] files[i]),
        forall|i: int| 0 <= i < others.len() ==> files.contains(#[trigger] others[i]),
    ensures
        check_answer(files, root, errors_only) == check_answer(others, root, errors_only),
{
    let lt = rank::<FileDiagnostic>();
    diagnostic_order();
    let a = reported(files, errors_only);
    let b = reported(others, errors_only);
    assert forall|z: (Seq<char>, Diagnostic)| #[trigger] ties(a, z, lt) == ties(b, z, lt) by {
        reported_ties(files, errors_only, z);
        reported_ties(others, errors_only, z);
        if exists|i: int| 0 <= i < files.len() && components((#[trigger] files[i]).0) == components(z.0) {
            let i = choose|i: int| 0 <= i < files.len() && components((#[trigger] files[i]).0) == components(z.0);
            assert(others.contains(files[i]));
            let j = choose|j: int| 0 <= j < others.len() && others[j] == files[i];
            assert(components(others[j].0) == components(z.0));
        } else {
            assert forall|j: int| 0 <= j < others.len() implies components((#[trigger] others[j]).0) != components(
                z.0,
            ) by {
                assert(files.contains(others[j]));
            }
        }
    }
    sorting_same_ties(a, b, lt);
}

/// The diagnostics of a severity are counted.
proof fn severities_are_counted(s: Seq<(Seq<char>, Diagnostic)>, severity: DiagSeverity)
    ensures
        severity_count(s, severity) == s.filter(|d: (Seq<char>, Diagnostic)| d.1.severity == severity).len(),
    decreases s.len(),
{
    reveal(Seq::filter);
    if s.len() > 0 {
        severities_are_counted(s.drop_last(), severity);
    }
}

proof fn reported_of_file_is_filtered(path: Seq<char>, ds: Seq<Diagnostic>, errors_only: bool)
    ensures
        reported_of_file(path, ds, errors_only) == ds.filter(
            |d: Diagnostic| !errors_only || d.severity == DiagSeverity::Error,
        ).map_values(|d: Diagnostic| (path, d)),
    decreases ds.len(),
{
    reveal(Seq::filter);
    let p = |d: Diagnostic| !errors_only || d.severity == DiagSeverity::Error;
    let make = |d: Diagnostic| (path, d);
    if ds.len() > 0 {
        reported_of_file_is_filtered(path, ds.drop_last(), errors_only);
        let rest = ds.drop_last().filter(p);
        if p(ds.last()) {
            assert(rest.push(ds.last()).map_values(make) =~= rest.map_values(make).push(make(ds.last())));
        }
    } else {
        assert(ds.filter(p).map_values(make) =~= Seq::empty());
    }
}

/// The diagnostics of files that a check is to report: all, or the errors alone.
pub open spec fn to_report(files: Seq<(Seq<char>, Seq<Diagnostic>)>, errors_only: bool) -> Seq<(Seq<char>, Diagnostic)> {
    files.map_values(
        |f: (Seq<char>, Seq<Diagnostic>)|
            f.1.filter(|d: Diagnostic| !errors_only || d.severity == DiagSeverity::Error).map_values(
                |d: Diagnostic| (f.0, d),
            ),
    ).flatten_alt()
}

proof fn reported_is_all(files: Seq<(Seq<char>, Seq<Diagnostic>)>, errors_only: bool)
    ensures
        reported(files, errors_only) == to_report(files, errors_only),
    decreases files.len(),
{
    let pick = |f: (Seq<char>, Seq<Diagnostic>)|
        f.1.filter(|d: Diagnostic| !errors_only || d.severity == DiagSeverity::Error).map_values(
            |d: Diagnostic| (f.0, d),
        );
    let lists = files.map_values(pick);
    if files.len() > 0 {
        reported_is_all(files.drop_last(), errors_only);
        let f = files.last();
        reported_of_file_is_filtered(f.0, f.1, errors_only);
        assert(lists.drop_last() =~= files.drop_last().map_values(pick));
        assert(lists.last() == pick(f));
    } else {
        assert(lists =~= Seq::empty());
    }
}

/// A check reports every diagnostic that it is to report, as often as it is there, with its place counted
/// from 1 and its path as seen from the project root: errors first, then warnings, information and hints,
/// and those of one severity by path and then by line. It counts all of them, the errors and the
/// warnings.
pub proof fn all_diagnostics_are_reported(files: Seq<(Seq<char>, Seq<Diagnostic>)>, root: Seq<char>, errors_only: bool)
    ensures
        exists|s: Seq<(Seq<char>, Diagnostic)>|
            {
                &&& s.to_multiset() == to_report(files, errors_only).to_multiset()
                &&& are_in_report_order(s)
                &&& check_answer(files, root, errors_only) == #[trigger] report_of(s, root)
            },
{
    let lt = rank::<FileDiagnostic>();
    let all = reported(files, errors_only);
    reported_is_all(files, errors_only);
    diagnostic_order();
    sorting_is_stable(all, lt);
    let s = sorted_by(all, lt);
    severities_are_counted(s, DiagSeverity::Error);
    severities_are_counted(s, DiagSeverity::Warning);
    assert(are_in_report_order(s)) by {
        assert forall|i: int, j: int| 0 <= i < j < s.len() implies {
            let a = #[trigger] s[i];
            let b = #[trigger] s[j];
            &&& severity_rank(a.1.severity) <= severity_rank(b.1.severity)
            &&& a.1.severity == b.1.severity ==> !path_before(b.0, a.0)
            &&& a.1.severity == b.1.severity && components(a.0) == components(b.0) ==> a.1.line <= b.1.line
        } by {
            assert(!lt(s[j], s[i]));
            components_order(components(s[i].0), components(s[j].0), components(s[i].0));
        }
    }
    assert(check_json(s, root) == report_of(s, root)) by {
        let a = Seq::new(s.len(), |i: int| diagnostic_json(s[i], root));
        let b = s.map_values(|d: (Seq<char>, Diagnostic)| reported_json(d, root));
        assert forall|i: int| 0 <= i < s.len() implies #[trigger] a[i] == b[i] by {
            assert(diagnostic_json(s[i], root)->Obj_0 =~= reported_json(s[i], root)->Obj_0);
        }
        assert(a =~= b);
    }
}

/// The place of a severity among all.
pub open spec fn severity_rank(severity: DiagSeverity) -> int {
    if severity == DiagSeverity::Error {
        0
    } else if severity == DiagSeverity::Warning {
        1
    } else if severity == DiagSeverity::Information {
        2
    } else {
        3
    }
}

/// Diagnostics stand by severity, then by path, then by line.
pub open spec fn are_in_report_order(s: Seq<(Seq<char>, Diagnostic)>) -> bool {
    forall|i: int, j: int|
        0 <= i < j < s.len() ==> {
            let a = #[trigger] s[i];
            let b = #[trigger] s[j];
            &&& severity_rank(a.1.severity) <= severity_rank(b.1.severity)
            &&& a.1.severity == b.1.severity ==> !path_before(b.0, a.0)
            &&& a.1.severity == b.1.severity && components(a.0) == components(b.0) ==> a.1.line <= b.1.line
        }
}

/// A diagnostic as it is reported.
pub open spec fn reported_json(d: (Seq<char>, Diagnostic), root: Seq<char>) -> Json {
    let tag = if d.1.severity == DiagSeverity::Error {
        "error"@
    } else if d.1.severity == DiagSeverity::Warning {
        "warn"@
    } else if d.1.severity == DiagSeverity::Information {
        "info"@
    } else {
        "hint"@
    };
    let code = match d.1.code {
        Some(c) => Json::Str(c),
        None => Json::Null,
    };
    Json::Obj(
        seq![
            ("severity"@, Json::Str(tag)),
            ("path"@, Json::Str(relative_or_self(d.0, root))),
            ("line"@, Json::Int(d.1.line.wrapping_add(1) as int)),
            ("col"@, Json::Int(d.1.col.wrapping_add(1) as int)),
            ("code"@, code),
            ("message"@, Json::Str(d.1.message)),
        ],
    )
}

/// The report of diagnostics in order.
pub open spec fn report_of(s: Seq<(Seq<char>, Diagnostic)>, root: Seq<char>) -> Json {
    Json::Obj(
        seq![
            ("diagnostics"@, Json::Arr(s.map_values(|d: (Seq<char>, Diagnostic)| reported_json(d, root)))),
            ("total"@, Json::Int(s.len() as int)),
            (
                "errors"@,
                Json::Int(s.filter(|d: (Seq<char>, Diagnostic)| d.1.severity == DiagSeverity::Error).len() as int),
            ),
            (
                "warnings"@,
                Json::Int(s.filter(|d: (Seq<char>, Diagnostic)| d.1.severity == DiagSeverity::Warning).len() as int),
            ),
        ],
    )
}

} // verus!
