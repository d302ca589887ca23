//! Applying the quick fixes that a language server offers for diagnostics.

use crate::json::{entries_view, field, jsons, Json, JsonValue};
use crate::lsp::diagnostics::{diagnostics, file_views, Diagnostic, DiagnosticEntry};
use crate::lsp::router::{firsts, firsts_keys, has_key};
use crate::output::search::itself;
use crate::paths::{joined, path_eq, path_join, relative_or_self, relative_to, same_path};
use crate::text::{list_contains, views};
use vstd::prelude::*;

verus! {

/// The files whose diagnostics are fixed: the one that is named, or all.
pub open spec fn files_to_fix(
    files: Seq<(Seq<char>, Seq<Diagnostic>)>,
    path: Option<Seq<char>>,
    root: Seq<char>,
) -> Seq<(Seq<char>, Seq<Diagnostic>)>
    decreases files.len(),
{
    match path {
        Some(p) => if files.len() == 0 {
            Seq::empty()
        } else {
            let rest = files_to_fix(files.drop_last(), path, root);
            if same_path(files.last().0, joined(root, p)) {
                rest.push(files.last())
            } else {
                rest
            }
        },
        None => files,
    }
}

/// The view of an optional slice.
pub open spec fn opt_slice(o: Option<&str>) -> Option<Seq<char>> {
    match o {
        Some(s) => Some(s@),
        None => None,
    }
}

/// Selects the files whose diagnostics are fixed.
pub fn select_files(
    files: Vec<(String, Vec<DiagnosticEntry>)>,
    path: Option<&str>,
    project_root: &str,
) -> (r: Vec<(String, Vec<DiagnosticEntry>)>)
    ensures
        file_views(r@) == files_to_fix(file_views(files@), opt_slice(path), project_root@),
{
    let p = match path {
        Some(p) => p,
        None => {
            return files;
        },
    };
    let abs = path_join(project_root, p);
    let ghost all = file_views(files@);
    let ghost wanted = Some(p@);
    let mut kept: Vec<(String, Vec<DiagnosticEntry>)> = Vec::new();
    assert(all.take(0) =~= Seq::empty());
    assert(file_views(kept@) =~= Seq::empty());
    for f in it: files
        invariant
            it.seq() == files@,
            all == file_views(it.seq()),
            wanted == Some(p@),
            abs@ == joined(project_root@, p@),
            file_views(kept@) == files_to_fix(all.take(it.index()), wanted, project_root@),
    {
        let ghost i = it.index();
        let ghost fv = (f.0@, diagnostics(f.1@));
        assert(all.take(i + 1).drop_last() =~= all.take(i));
        assert(all.take(i + 1).last() == fv);
        if path_eq(f.0.as_str(), abs.as_str()) {
            let ghost before = file_views(kept@);
            kept.push(f);
            assert(file_views(kept@) =~= before.push(fv));
        }
    }
    assert(all.take(all.len() as int) =~= all);
    kept
}

/// An empty range at a position.
pub open spec fn point_json(line: u32, col: u32) -> Json {
    let p = Json::Obj(seq![("line"@, Json::Int(line as int)), ("character"@, Json::Int(col as int))]);
    Json::Obj(seq![("start"@, p), ("end"@, p)])
}

/// A diagnostic as the server is shown it.
pub open spec fn shown_diagnostic(d: Diagnostic) -> Json {
    Json::Obj(
        seq![
            ("range"@, point_json(d.line, d.col)),
            ("message"@, Json::Str(d.message)),
            ("severity"@, Json::Int(d.severity.level())),
            (
                "code"@,
                match d.code {
                    Some(c) => Json::Str(c),
                    None => Json::Null,
                },
            ),
        ],
    )
}

/// The parameters that ask for quick fixes of a diagnostic.
pub open spec fn code_action_json(uri: Seq<char>, d: Diagnostic) -> Json {
    Json::Obj(
        seq![
            ("textDocument"@, Json::Obj(seq![("uri"@, Json::Str(uri))])),
            ("range"@, point_json(d.line, d.col)),
            (
                "context"@,
                Json::Obj(
                    seq![
                        ("diagnostics"@, Json::Arr(seq![shown_diagnostic(d)])),
                        ("only"@, Json::Arr(seq![Json::Str("quickfix"@)])),
                    ],
                ),
            ),
        ],
    )
}

fn make_point(line: u32, col: u32) -> (r: JsonValue)
    ensures
        r@ == point_json(line, col),
{
    let start = vec![field("line", JsonValue::UInt(line as u64)), field("character", JsonValue::UInt(col as u64))];
    let end = vec![field("line", JsonValue::UInt(line as u64)), field("character", JsonValue::UInt(col as u64))];
    let ghost want = point_json(line, col);
    assert(entries_view(start@) =~= want->Obj_0[0].1->Obj_0);
    assert(entries_view(end@) =~= want->Obj_0[1].1->Obj_0);
    let fields = vec![field("start", JsonValue::object(start)), field("end", JsonValue::object(end))];
    assert(entries_view(fields@) =~= want->Obj_0);
    JsonValue::object(fields)
}

fn make_diagnostic(d: &DiagnosticEntry) -> (r: JsonValue)
    ensures
        r@ == shown_diagnostic(d@),
{
    let code = match &d.code {
        Some(c) => JsonValue::String(c.clone()),
        None => JsonValue::Null,
    };
    let fields = vec![
        field("range", make_point(d.line, d.col)),
        field("message", JsonValue::String(d.message.clone())),
        field("severity", JsonValue::UInt(d.severity.number())),
        field("code", code),
    ];
    assert(entries_view(fields@) =~= shown_diagnostic(d@)->Obj_0);
    JsonValue::object(fields)
}

/// Builds the parameters that ask for quick fixes of a diagnostic.
pub fn code_action_params(uri: &str, diag: &DiagnosticEntry) -> (r: JsonValue)
    ensures
        r@ == code_action_json(uri@, diag@),
{
    let ghost want = code_action_json(uri@, diag@);
    let document = vec![field("uri", JsonValue::str(uri))];
    assert(entries_view(document@) =~= want->Obj_0[0].1->Obj_0);
    let diags = vec![make_diagnostic(diag)];
    assert(jsons(diags@) =~= seq![shown_diagnostic(diag@)]);
    let only = vec![JsonValue::str("quickfix")];
    assert(jsons(only@) =~= seq![Json::Str("quickfix"@)]);
    let context = vec![field("diagnostics", JsonValue::array(diags)), field("only", JsonValue::array(only))];
    assert(entries_view(context@) =~= want->Obj_0[2].1->Obj_0);
    let fields = vec![
        field("textDocument", JsonValue::object(document)),
        field("range", make_point(diag.line, diag.col)),
        field("context", JsonValue::object(context)),
    ];
    assert(entries_view(fields@) =~= want->Obj_0);
    JsonValue::object(fields)
}

/// The edits that actions carry; an action without an edit, or with `null` for one, has none.
pub open spec fn action_edits(actions: Seq<Json>) -> Seq<Json>
    decreases actions.len(),
{
    if actions.len() == 0 {
        Seq::empty()
    } else {
        let rest = action_edits(actions.drop_last());
        match actions.last().get("edit"@) {
            Some(e) => if e == Json::Null {
                rest
            } else {
                rest.push(e)
            },
            None => rest,
        }
    }
}

/// The workspace edits that a code action response carries, in order.
pub fn edits_to_apply(response: &JsonValue) -> (r: Vec<JsonValue>)
    ensures
        jsons(r@) == match response@.as_array() {
            Some(actions) => action_edits(actions),
            None => Seq::empty(),
        },
{
    let mut out: Vec<JsonValue> = Vec::new();
    assert(jsons(out@) =~= Seq::empty());
    if let Some(actions) = response.as_array() {
        let ghost all = jsons(actions@);
        let mut i: usize = 0;
        assert(all.take(0) =~= Seq::empty());
        while i < actions.len()
            invariant
                0 <= i <= actions@.len(),
                all == jsons(actions@),
                jsons(out@) == action_edits(all.take(i as int)),
            decreases actions@.len() - i,
        {
            assert(all.take(i + 1).drop_last() =~= all.take(i as int));
            assert(all.take(i + 1).last() == actions@[i as int]@);
            if let Some(e) = actions[i].get("edit") {
                if !e.is_null() {
                    let ghost before = jsons(out@);
                    out.push(e.copy());
                    assert(jsons(out@) =~= before.push(e@));
                }
            }
            i = i + 1;
        }
        assert(all.take(i as int) =~= all);
    }
    out
}

/// How many fixes were applied, and in which files, each once, in the order of their first fix.
pub struct FixTally {
    pub fixes: usize,
    pub files: Vec<String>,
}

/// The answer to a fix.
pub open spec fn fix_json(fixes: int, files: Seq<Seq<char>>) -> Json {
    Json::Obj(
        seq![
            ("fixes_applied"@, Json::Int(fixes)),
            ("files"@, Json::Arr(Seq::new(files.len(), |i: int| Json::Str(files[i])))),
        ],
    )
}

impl FixTally {
    /// The tally counts the fixes in the files `fixed`, one after the other.
    pub open spec fn counts(self, fixed: Seq<Seq<char>>) -> bool {
        self.fixes == fixed.len() && views(self.files@) == firsts(fixed, itself())
    }

    /// No fix was applied yet.
    pub fn new() -> (r: FixTally)
        ensures
            r.counts(Seq::empty()),
    {
        let r = FixTally { fixes: 0, files: Vec::new() };
        assert(views(r.files@) =~= Seq::empty());
        r
    }

    /// Records that a fix was applied in a file.
    pub fn record(&mut self, file_path: &str, project_root: &str)
        requires
            old(self).fixes < usize::MAX,
        ensures
            final(self).fixes == old(self).fixes + 1,
            forall|fixed: Seq<Seq<char>>| #[trigger]
                old(self).counts(fixed) ==> final(self).counts(
                    fixed.push(relative_or_self(file_path@, project_root@)),
                ),
    {
        let rel = relative_to(file_path, project_root);
        let ghost before = views(self.files@);
        let ghost rv = rel@;
        let known = list_contains(&self.files, rel.as_str());
        if !known {
            self.files.push(rel);
            assert(views(self.files@) =~= before.push(rv));
        }
        self.fixes = self.fixes + 1;
        assert forall|fixed: Seq<Seq<char>>| #[trigger] old(self).counts(fixed) implies self.counts(fixed.push(rv)) by {
            let key = itself();
            assert(fixed.push(rv).drop_last() =~= fixed);
            firsts_keys(fixed, key);
            assert(has_key(firsts(fixed, key), key, rv) == has_key(fixed, key, rv));
            if known {
                let k = choose|k: int| 0 <= k < before.len() && before[k] == rv;
                assert(key(firsts(fixed, key)[k]) == rv);
            } else if has_key(firsts(fixed, key), key, rv) {
                let k = choose|k: int| 0 <= k < firsts(fixed, key).len() && key(#[trigger] firsts(fixed, key)[k]) == rv;
                assert(before.contains(before[k]));
            }
        }
    }

    /// The answer.
    pub fn response(&self) -> (r: JsonValue)
        ensures
            r@ == fix_json(self.fixes as int, views(self.files@)),
    {
        let fields = vec![
            field("fixes_applied", JsonValue::number(self.fixes)),
            field("files", JsonValue::strings(&self.files)),
        ];
        proof {
            let want = fix_json(self.fixes as int, views(self.files@));
            assert(Seq::new(self.files@.len(), |i: int| Json::Str(views(self.files@)[i])) =~= want->Obj_0[1].1->Arr_0);
            assert(entries_view(fields@) =~= want->Obj_0);
        }
        JsonValue::object(fields)
    }
}

// ── One diagnostic after the other ──────────────────────────────────────────

/// The diagnostics of files, each with the path of its file.
pub open spec fn one_by_one(files: Seq<(Seq<char>, Seq<Diagnostic>)>) -> Seq<(Seq<char>, Diagnostic)>
    decreases files.len(),
{
    if files.len() == 0 {
        Seq::empty()
    } else {
        one_by_one(files.drop_last()) + with_path(files.last().0, files.last().1)
    }
}

/// Diagnostics with the path of their file.
pub open spec fn with_path(path: Seq<char>, diags: Seq<Diagnostic>) -> Seq<(Seq<char>, Diagnostic)> {
    Seq::new(diags.len(), |i: int| (path, diags[i]))
}

/// The views of a list of diagnostics with their files.
pub open spec fn work_views(v: Seq<(String, DiagnosticEntry)>) -> Seq<(Seq<char>, Diagnostic)> {
    Seq::new(v.len(), |i: int| (v[i].0@, v[i].1@))
}

/// The edits that a response carries.
pub open spec fn response_edits(response: Json) -> Seq<Json> {
    match response.as_array() {
        Some(actions) => action_edits(actions),
        None => Seq::empty(),
    }
}

/// The file of a fix, as often as there are edits.
pub open spec fn fixed_by(path: Seq<char>, root: Seq<char>, response: Json) -> Seq<Seq<char>> {
    Seq::new(response_edits(response).len(), |i: int| relative_or_self(path, root))
}

/// The files of the fixes that the responses for the first `n` diagnostics carry, in order.
pub open spec fn fixed_paths(
    work: Seq<(Seq<char>, Diagnostic)>,
    responses: Seq<Json>,
    root: Seq<char>,
    n: int,
) -> Seq<Seq<char>>
    decreases n,
{
    if n <= 0 {
        Seq::empty()
    } else {
        fixed_paths(work, responses, root, n - 1) + fixed_by(work[n - 1].0, root, responses[n - 1])
    }
}

/// Responses behind the first `n` do not matter for those.
proof fn fixed_paths_prefix(
    work: Seq<(Seq<char>, Diagnostic)>,
    a: Seq<Json>,
    b: Seq<Json>,
    root: Seq<char>,
    n: int,
)
    requires
        n <= a.len(),
        n <= b.len(),
        forall|i: int| 0 <= i < n ==> a[i] == b[i],
    ensures
        fixed_paths(work, a, root, n) == fixed_paths(work, b, root, n),
    decreases n,
{
    if n > 0 {
        fixed_paths_prefix(work, a, b, root, n - 1);
    }
}

/// Fixes diagnostics one after the other.
///
/// The caller asks for the next diagnostic, asks the server for its fixes, hands the response back,
/// and applies the edits that it gets.
pub struct FixRun {
    pub work: Vec<(String, DiagnosticEntry)>,
    pub at: usize,
    pub tally: FixTally,
    pub root: String,
}

impl FixRun {
    /// The responses so far were counted.
    pub open spec fn counted(self, responses: Seq<Json>) -> bool {
        &&& responses.len() == self.at
        &&& self.tally.counts(fixed_paths(work_views(self.work@), responses, self.root@, self.at as int))
    }

    /// Starts to fix the diagnostics of the named file, or of all.
    pub fn new(files: Vec<(String, Vec<DiagnosticEntry>)>, path: Option<&str>, project_root: &str) -> (r: FixRun)
        ensures
            r.at == 0,
            r.root@ == project_root@,
            work_views(r.work@) == one_by_one(files_to_fix(file_views(files@), opt_slice(path), project_root@)),
            r.counted(Seq::empty()),
    {
        let selected = select_files(files, path, project_root);
        let ghost all = file_views(selected@);
        let mut work: Vec<(String, DiagnosticEntry)> = Vec::new();
        assert(all.take(0) =~= Seq::empty());
        assert(work_views(work@) =~= one_by_one(all.take(0)));
        for f in it: selected
            invariant
                it.seq() == selected@,
                all == file_views(it.seq()),
                work_views(work@) == one_by_one(all.take(it.index())),
        {
            let ghost i = it.index();
            let ghost start = work_views(work@);
            let ghost fv = (f.0@, diagnostics(f.1@));
            assert(all.take(i + 1).drop_last() =~= all.take(i));
            assert(all.take(i + 1).last() == fv);
            let name = f.0;
            let ghost diags = diagnostics(f.1@);
            let ghost given = f.1@;
            assert(start + with_path(name@, diags).take(0) =~= start);
            for d in dit: f.1
                invariant
                    dit.seq() == given,
                    diags == diagnostics(given),
                    work_views(work@) == start + with_path(name@, diags).take(dit.index()),
            {
                let ghost k = dit.index();
                let ghost before = work_views(work@);
                let ghost dv = d@;
                work.push((name.clone(), d));
                assert(work_views(work@) =~= before.push((name@, dv)));
                assert(diags[k] == dv);
                assert(start + with_path(name@, diags).take(k + 1) =~= (start + with_path(name@, diags).take(k)).push(
                    (name@, dv),
                ));
            }
            assert(with_path(name@, diags).take(diags.len() as int) =~= with_path(name@, diags));
        }
        assert(all.take(all.len() as int) =~= all);
        FixRun { work, at: 0, tally: FixTally::new(), root: project_root.to_string() }
    }

    /// The next diagnostic to fix, with the path of its file.
    pub fn next(&self) -> (r: Option<(&str, &DiagnosticEntry)>)
        ensures
            match r {
                Some(w) => self.at < self.work@.len() && (w.0@, w.1@) == work_views(self.work@)[self.at as int],
                None => self.at >= self.work@.len(),
            },
    {
        if self.at < self.work.len() {
            Some((self.work[self.at].0.as_str(), &self.work[self.at].1))
        } else {
            None
        }
    }

    /// Takes the response for the diagnostic, and gives the edits to apply.
    pub fn on_response(&mut self, response: &JsonValue) -> (r: Vec<JsonValue>)
        requires
            old(self).at < old(self).work.len(),
            old(self).tally.fixes + response_edits(response@).len() <= usize::MAX,
        ensures
            jsons(r@) == response_edits(response@),
            final(self).work == old(self).work,
            final(self).root == old(self).root,
            final(self).at == old(self).at + 1,
            final(self).tally.fixes == old(self).tally.fixes + response_edits(response@).len(),
            forall|responses: Seq<Json>| #[trigger]
                old(self).counted(responses) ==> final(self).counted(responses.push(response@)),
    {
        let ghost start = *self;
        let edits = edits_to_apply(response);
        let ghost all = response_edits(response@);
        assert(jsons(edits@).len() == edits@.len());
        let path = self.work[self.at].0.clone();
        let root = self.root.clone();
        let ghost rel = relative_or_self(path@, root@);
        let mut i: usize = 0;
        assert forall|fixed: Seq<Seq<char>>| #[trigger] start.tally.counts(fixed) implies self.tally.counts(
            fixed + Seq::new(0, |k: int| rel),
        ) by {
            assert(fixed + Seq::new(0, |k: int| rel) =~= fixed);
        }
        while i < edits.len()
            invariant
                0 <= i <= edits@.len(),
                edits@.len() == all.len(),
                start.tally.fixes + all.len() <= usize::MAX,
                self.tally.fixes == start.tally.fixes + i,
                self.work == start.work,
                self.root == start.root,
                self.at == start.at,
                rel == relative_or_self(path@, root@),
                forall|fixed: Seq<Seq<char>>| #[trigger]
                    start.tally.counts(fixed) ==> self.tally.counts(fixed + Seq::new(i as nat, |k: int| rel)),
            decreases edits@.len() - i,
        {
            let ghost before = self.tally;
            self.tally.record(path.as_str(), root.as_str());
            assert forall|fixed: Seq<Seq<char>>| #[trigger] start.tally.counts(fixed) implies self.tally.counts(
                fixed + Seq::new((i + 1) as nat, |k: int| rel),
            ) by {
                let so_far = fixed + Seq::new(i as nat, |k: int| rel);
                assert(before.counts(so_far));
                assert(so_far.push(rel) =~= fixed + Seq::new((i + 1) as nat, |k: int| rel));
            }
            i = i + 1;
        }
        self.at = self.at + 1;
        proof {
            assert(work_views(self.work@)[start.at as int].0 == path@);
            assert forall|responses: Seq<Json>| #[trigger] start.counted(responses) implies self.counted(
                responses.push(response@),
            ) by {
                let more = responses.push(response@);
                let w = work_views(self.work@);
                fixed_paths_prefix(w, responses, more, root@, start.at as int);
                let fixed = fixed_paths(w, responses, root@, start.at as int);
                assert(start.tally.counts(fixed));
                assert(fixed_by(path@, root@, response@) =~= Seq::new(all.len(), |k: int| rel));
                assert(more[start.at as int] == response@);
            }
        }
        edits
    }

    /// The answer.
    pub fn response(&self) -> (r: JsonValue)
        ensures
            r@ == fix_json(self.tally.fixes as int, views(self.tally.files@)),
    {
        self.tally.response()
    }
}

/// The answer counts one fix for each edit, and names each file with a fix once.
pub proof fn all_fixes_are_counted(run: FixRun, responses: Seq<Json>)
    requires
        run.counted(responses),
    ensures
        ({
            let fixed = fixed_paths(work_views(run.work@), responses, run.root@, run.at as int);
            &&& run.tally.fixes == fixed.len()
            &&& forall|p: Seq<char>| views(run.tally.files@).contains(p) == fixed.contains(p)
            &&& views(run.tally.files@).no_duplicates()
        }),
{
    let key = itself();
    let fixed = fixed_paths(work_views(run.work@), responses, run.root@, run.at as int);
    let files = views(run.tally.files@);
    firsts_keys(fixed, key);
    assert forall|p: Seq<char>| files.contains(p) == fixed.contains(p) by {
        assert(has_key(files, key, p) == has_key(fixed, key, p));
        if files.contains(p) {
            let k = choose|k: int| 0 <= k < files.len() && files[k] == p;
            assert(key(files[k]) == p);
        }
        if fixed.contains(p) {
            let k = choose|k: int| 0 <= k < fixed.len() && fixed[k] == p;
            assert(key(fixed[k]) == p);
        }
        if has_key(files, key, p) {
            let k = choose|k: int| 0 <= k < files.len() && key(#[trigger] files[k]) == p;
            assert(files[k] == p);
        }
        if has_key(fixed, key, p) {
            let k = choose|k: int| 0 <= k < fixed.len() && key(#[trigger] fixed[k]) == p;
            assert(fixed[k] == p);
        }
    }
    assert forall|i: int, j: int| 0 <= i < files.len() && 0 <= j < files.len() && i != j implies files[i] != files[j] by {
        if i < j {
            assert(key(files[i]) != key(files[j]));
        } else {
            assert(key(files[j]) != key(files[i]));
        }
    }
}

/// The fixes of one file are for the files with its path, and those without a path for all files.
pub proof fn all_named_files_are_fixed(files: Seq<(Seq<char>, Seq<Diagnostic>)>, path: Seq<char>, root: Seq<char>)
    ensures
        files_to_fix(files, Some(path), root) == files.filter(
            |f: (Seq<char>, Seq<Diagnostic>)| same_path(f.0, joined(root, path)),
        ),
        files_to_fix(files, None, root) == files,
    decreases files.len(),
{
    reveal(Seq::filter);
    if files.len() > 0 {
        all_named_files_are_fixed(files.drop_last(), path, root);
    } else {
        assert(files_to_fix(files, Some(path), root) =~= Seq::empty());
    }
}

/// Every diagnostic of every file is worked on, in order.
pub proof fn all_diagnostics_are_worked_on(files: Seq<(Seq<char>, Seq<Diagnostic>)>)
    ensures
        one_by_one(files) == files.map_values(
            |f: (Seq<char>, Seq<Diagnostic>)| f.1.map_values(|d: Diagnostic| (f.0, d)),
        ).flatten_alt(),
    decreases files.len(),
{
    let pick = |f: (Seq<char>, Seq<Diagnostic>)| f.1.map_values(|d: Diagnostic| (f.0, d));
    let lists = files.map_values(pick);
    if files.len() > 0 {
        all_diagnostics_are_worked_on(files.drop_last());
        assert(lists.drop_last() =~= files.drop_last().map_values(pick));
        assert(lists.last() =~= with_path(files.last().0, files.last().1));
    } else {
        assert(lists =~= Seq::empty());
    }
}

/// Every action that carries an edit has it applied, in order.
pub proof fn all_edits_of_actions_are_applied(actions: Seq<Json>)
    ensures
        action_edits(actions) == actions.filter(|a: Json| a.get("edit"@) is Some && a.get("edit"@)->Some_0 != Json::Null).map_values(|a: Json| a.get("edit"@)->Some_0),
    decreases actions.len(),
{
    reveal(Seq::filter);
    let p = |a: Json| a.get("edit"@) is Some && a.get("edit"@)->Some_0 != Json::Null;
    let make = |a: Json| a.get("edit"@)->Some_0;
    if actions.len() > 0 {
        all_edits_of_actions_are_applied(actions.drop_last());
        let rest = actions.drop_last().filter(p);
        if p(actions.last()) {
            assert(rest.push(actions.last()).map_values(make) =~= rest.map_values(make).push(make(actions.last())));
        }
    } else {
        assert(actions.filter(p).map_values(make) =~= Seq::empty());
    }
}

} // verus!
