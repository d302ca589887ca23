//! What the daemon tells of itself, of the language servers and of the index.

use crate::commands::list::{entries, Entry, SymbolEntry};
use crate::config::{language_named, parse_language, shown_path, workspace_name, ConfigSource};
use crate::daemon::server::outline_views;
use crate::daemon::values::{entries_value, entry_list, status_list, statuses_value};
use crate::detect::language::{language_for_file, language_of, Language};
use crate::index::builder::{FileEntry, Source};
use crate::json::{entries_view, field, jsons, Json, JsonValue};
use crate::lsp::pool::{root_views, Readiness, ServerStatus, Status};
use crate::lsp::registry::{get_entry, servers_for};
use crate::lsp::router::{firsts, firsts_keys, has_key};
use crate::output::search::itself;
use crate::protocol::{failure, success, Response};
use crate::sorting::{rank, seen, sort, sorted_by};
use crate::text::{decimal, decimal_of, list_contains, slice_views, views};
use vstd::prelude::*;

verus! {

// ── Language servers ────────────────────────────────────────────────────────

/// The answer with the status of the language servers.
pub fn handle_server_status(statuses: &Vec<ServerStatus>) -> (r: Response)
    ensures
        r@ == success(
            Json::Obj(
                seq![
                    ("servers"@, status_list(seen(statuses@))),
                    ("count"@, Json::Int(statuses@.len() as int)),
                ],
            ),
        ),
{
    let fields = vec![
        field("servers", statuses_value(statuses.as_slice())),
        field("count", JsonValue::number(statuses.len())),
    ];
    assert(entries_view(fields@) =~= seq![
        ("servers"@, status_list(seen(statuses@))),
        ("count"@, Json::Int(statuses@.len() as int)),
    ]);
    Response::ok(JsonValue::object(fields))
}

/// Decides which language's server to restart.
pub fn restart_language(language: &str) -> (r: Result<Language, Response>)
    ensures
        match r {
            Ok(lang) => language_named(language@) == Some(lang),
            Err(a) => language_named(language@) is None && a@ == failure(
                "unknown_language"@,
                "unknown language: "@ + language@,
                None,
            ),
        },
{
    match parse_language(language) {
        Some(lang) => Ok(lang),
        None => {
            let mut m = "unknown language: ".to_string();
            m.append(language);
            Err(Response::err("unknown_language", m.as_str()))
        },
    }
}

/// The answer after a restart.
pub fn restart_response(language: &str, lang: Language, outcome: Result<(), String>) -> (r: Response)
    ensures
        r@ == match outcome {
            Ok(_) => success(
                Json::Obj(
                    seq![
                        ("restarted"@, Json::Str(language@)),
                        ("server_name"@, Json::Str(servers_for(lang)[0].binary_name)),
                    ],
                ),
            ),
            Err(m) => failure("restart_failed"@, m@, None),
        },
{
    match outcome {
        Ok(_) => {
            let server_name = match get_entry(lang) {
                Some(e) => e.binary_name.to_string(),
                None => "unknown".to_string(),
            };
            let fields = vec![
                field("restarted", JsonValue::str(language)),
                field("server_name", JsonValue::String(server_name)),
            ];
            assert(entries_view(fields@) =~= seq![
                ("restarted"@, Json::Str(language@)),
                ("server_name"@, Json::Str(servers_for(lang)[0].binary_name)),
            ]);
            Response::ok(JsonValue::object(fields))
        },
        Err(m) => Response::err("restart_failed", m.as_str()),
    }
}

// ── Status ──────────────────────────────────────────────────────────────────

/// What the status tells of a project without workspaces.
pub open spec fn bare_lsp_json(languages: Seq<Language>, available: bool) -> Json {
    if languages.len() == 0 {
        Json::Null
    } else {
        let server = servers_for(languages[0])[0];
        Json::Obj(
            seq![
                ("language"@, Json::Str(languages[0].label())),
                (
                    "status"@,
                    Json::Str(
                        if available {
                            "available"@
                        } else {
                            "not_installed"@
                        },
                    ),
                ),
                ("server"@, Json::Str(server.binary_name)),
                ("advice"@, Json::Str(server.install_advice)),
            ],
        )
    }
}

/// What the status tells of the language servers.
pub open spec fn lsp_json(readiness: Readiness, statuses: Seq<Status>) -> Json {
    Json::Obj(
        seq![
            (
                "status"@,
                Json::Str(
                    if readiness.ready >= readiness.total {
                        "ready"@
                    } else {
                        "pending"@
                    },
                ),
            ),
            ("sessions"@, Json::Int(readiness.total as int)),
            ("ready"@, Json::Int(readiness.ready as int)),
            ("progress"@, Json::Str(decimal(readiness.ready as nat) + "/"@ + decimal(readiness.total as nat))),
            ("servers"@, status_list(statuses)),
        ],
    )
}

/// What the daemon knows of itself.
pub struct DaemonFacts {
    pub pid: u32,
    pub uptime_secs: u64,
    pub config_source: ConfigSource,
    pub project_root: String,
    pub languages: Vec<Language>,
    pub readiness: Readiness,
    pub statuses: Vec<ServerStatus>,
    /// Whether the server of the first language is installed.
    pub server_available: bool,
    /// Number of workspace roots.
    pub workspaces: usize,
    /// The numbers of discovered and attached workspaces that the index holds, where it can be read.
    pub counts: Option<(usize, usize)>,
    pub dirty_files: usize,
    pub watcher_active: bool,
}

/// The names of languages.
pub open spec fn labels(langs: Seq<Language>) -> Seq<Json> {
    Seq::new(langs.len(), |i: int| Json::Str(langs[i].label()))
}

/// The status of the daemon.
pub open spec fn daemon_json(f: DaemonFacts) -> Json {
    let counts = match f.counts {
        Some(c) => c,
        None => (f.workspaces, 0usize),
    };
    Json::Obj(
        seq![
            (
                "daemon"@,
                Json::Obj(seq![("pid"@, Json::Int(f.pid as int)), ("uptime_secs"@, Json::Int(f.uptime_secs as int))]),
            ),
            ("config"@, Json::Str(f.config_source.text())),
            (
                "lsp"@,
                if f.readiness.total == 0 {
                    bare_lsp_json(f.languages@, f.server_available)
                } else {
                    lsp_json(f.readiness, seen(f.statuses@))
                },
            ),
            (
                "project"@,
                Json::Obj(
                    seq![
                        ("root"@, Json::Str(f.project_root@)),
                        ("languages"@, Json::Arr(labels(f.languages@))),
                        ("workspaces"@, Json::Int(f.workspaces as int)),
                        ("workspaces_discovered"@, Json::Int(counts.0 as int)),
                        ("workspaces_attached"@, Json::Int(counts.1 as int)),
                    ],
                ),
            ),
            (
                "index"@,
                Json::Obj(
                    seq![
                        ("dirty_files"@, Json::Int(f.dirty_files as int)),
                        ("watcher_active"@, Json::Bool(f.watcher_active)),
                    ],
                ),
            ),
        ],
    )
}

fn make_bare_lsp(languages: &Vec<Language>, available: bool) -> (r: JsonValue)
    ensures
        r@ == bare_lsp_json(languages@, available),
{
    if languages.len() == 0 {
        return JsonValue::Null;
    }
    let lang = languages[0];
    let status = if available {
        "available"
    } else {
        "not_installed"
    };
    let (server, advice) = match get_entry(lang) {
        Some(e) => (e.binary_name.to_string(), JsonValue::str(e.install_advice)),
        None => ("unknown".to_string(), JsonValue::Null),
    };
    let fields = vec![
        field("language", JsonValue::str(lang.name())),
        field("status", JsonValue::str(status)),
        field("server", JsonValue::String(server)),
        field("advice", advice),
    ];
    assert(entries_view(fields@) =~= bare_lsp_json(languages@, available)->Obj_0);
    JsonValue::object(fields)
}

fn make_lsp(readiness: &Readiness, statuses: &Vec<ServerStatus>) -> (r: JsonValue)
    requires
        readiness.total > 0,
    ensures
        r@ == lsp_json(*readiness, seen(statuses@)),
{
    let label = if readiness.is_all_ready() {
        "ready"
    } else {
        "pending"
    };
    let mut progress = decimal_of(readiness.ready as u64);
    progress.append("/");
    progress.append(decimal_of(readiness.total as u64).as_str());
    let fields = vec![
        field("status", JsonValue::str(label)),
        field("sessions", JsonValue::number(readiness.total)),
        field("ready", JsonValue::number(readiness.ready)),
        field("progress", JsonValue::String(progress)),
        field("servers", statuses_value(statuses.as_slice())),
    ];
    assert(entries_view(fields@) =~= lsp_json(*readiness, seen(statuses@))->Obj_0);
    JsonValue::object(fields)
}

fn make_labels(langs: &Vec<Language>) -> (r: JsonValue)
    ensures
        r@ == Json::Arr(labels(langs@)),
{
    let mut out: Vec<JsonValue> = Vec::new();
    let mut i: usize = 0;
    while i < langs.len()
        invariant
            0 <= i <= langs@.len(),
            out@.len() == i,
            forall|k: int| 0 <= k < i ==> (#[trigger] out@[k])@ == Json::Str(langs@[k].label()),
        decreases langs@.len() - i,
    {
        out.push(JsonValue::str(langs[i].name()));
        i = i + 1;
    }
    assert(jsons(out@) =~= labels(langs@));
    JsonValue::array(out)
}

/// The answer with the status of the daemon.
pub fn build_status_response(f: &DaemonFacts) -> (r: Response)
    ensures
        r@ == success(daemon_json(*f)),
{
    let ghost want = daemon_json(*f);
    let lsp = if f.readiness.total == 0 {
        make_bare_lsp(&f.languages, f.server_available)
    } else {
        make_lsp(&f.readiness, &f.statuses)
    };
    let (discovered, attached) = match f.counts {
        Some(c) => c,
        None => (f.workspaces, 0),
    };
    let daemon = vec![field("pid", JsonValue::UInt(f.pid as u64)), field("uptime_secs", JsonValue::UInt(f.uptime_secs))];
    assert(entries_view(daemon@) =~= want->Obj_0[0].1->Obj_0);
    let project = vec![
        field("root", JsonValue::str(f.project_root.as_str())),
        field("languages", make_labels(&f.languages)),
        field("workspaces", JsonValue::number(f.workspaces)),
        field("workspaces_discovered", JsonValue::number(discovered)),
        field("workspaces_attached", JsonValue::number(attached)),
    ];
    assert(entries_view(project@) =~= want->Obj_0[3].1->Obj_0);
    let index = vec![
        field("dirty_files", JsonValue::number(f.dirty_files)),
        field("watcher_active", JsonValue::Bool(f.watcher_active)),
    ];
    assert(entries_view(index@) =~= want->Obj_0[4].1->Obj_0);
    let fields = vec![
        field("daemon", JsonValue::object(daemon)),
        field("config", JsonValue::str(f.config_source.label())),
        field("lsp", lsp),
        field("project", JsonValue::object(project)),
        field("index", JsonValue::object(index)),
    ];
    assert(entries_view(fields@) =~= want->Obj_0);
    Response::ok(JsonValue::object(fields))
}

/// The answer to a request to stop.
pub fn stop_response() -> (r: Response)
    ensures
        r@ == success(Json::Obj(seq![("message"@, Json::Str("shutting down"@))])),
{
    let fields = vec![field("message", JsonValue::str("shutting down"))];
    assert(entries_view(fields@) =~= seq![("message"@, Json::Str("shutting down"@))]);
    Response::ok(JsonValue::object(fields))
}

// ── Directories ─────────────────────────────────────────────────────────────

/// The entries of the files that have symbols.
pub open spec fn outlined_files(s: Seq<(Seq<char>, Seq<Entry>)>) -> Seq<Json>
    decreases s.len(),
{
    if s.len() == 0 {
        Seq::empty()
    } else {
        let rest = outlined_files(s.drop_last());
        if s.last().1.len() == 0 {
            rest
        } else {
            rest.push(Json::Obj(seq![("file"@, Json::Str(s.last().0)), ("symbols"@, entry_list(s.last().1))]))
        }
    }
}

/// The answer with the symbols of the files of a directory; files without any are left out.
pub fn directory_response(files: &Vec<(String, Vec<SymbolEntry>)>) -> (r: Response)
    ensures
        r@ == success(
            Json::Obj(
                seq![("dir"@, Json::Bool(true)), ("files"@, Json::Arr(outlined_files(outline_views(files@))))],
            ),
        ),
{
    let ghost all = outline_views(files@);
    let mut out: Vec<JsonValue> = Vec::new();
    let mut i: usize = 0;
    assert(all.take(0) =~= Seq::empty());
    assert(jsons(out@) =~= Seq::empty());
    while i < files.len()
        invariant
            0 <= i <= files@.len(),
            all == outline_views(files@),
            jsons(out@) == outlined_files(all.take(i as int)),
        decreases files@.len() - i,
    {
        assert(all.take(i + 1).drop_last() =~= all.take(i as int));
        assert(all.take(i + 1).last() == all[i as int]);
        assert(entries(files@[i as int].1@).len() == files@[i as int].1@.len());
        if files[i].1.len() > 0 {
            let fields = vec![
                field("file", JsonValue::str(files[i].0.as_str())),
                field("symbols", entries_value(files[i].1.as_slice())),
            ];
            let ghost want = seq![("file"@, Json::Str(all[i as int].0)), ("symbols"@, entry_list(all[i as int].1))];
            assert(entries_view(fields@) =~= want);
            let v = JsonValue::object(fields);
            let ghost before = jsons(out@);
            let ghost vv = v@;
            out.push(v);
            assert(jsons(out@) =~= before.push(vv));
        }
        i = i + 1;
    }
    assert(all.take(i as int) =~= all);
    let fields = vec![field("dir", JsonValue::Bool(true)), field("files", JsonValue::array(out))];
    assert(entries_view(fields@) =~= seq![
        ("dir"@, Json::Bool(true)),
        ("files"@, Json::Arr(outlined_files(outline_views(files@)))),
    ]);
    Response::ok(JsonValue::object(fields))
}

// ── Indexing ────────────────────────────────────────────────────────────────

/// The extensions of a language's files. TypeScript and JavaScript have each other's too.
pub open spec fn shared_suffixes(lang: Language) -> Seq<Seq<char>> {
    match lang {
        Language::TypeScript | Language::JavaScript => Language::TypeScript.suffixes()
            + Language::JavaScript.suffixes(),
        _ => lang.suffixes(),
    }
}

/// The extensions of the languages' files, as they come.
pub open spec fn all_suffixes(langs: Seq<Language>) -> Seq<Seq<char>>
    decreases langs.len(),
{
    if langs.len() == 0 {
        Seq::empty()
    } else {
        all_suffixes(langs.drop_last()) + shared_suffixes(langs.last())
    }
}

fn add_new(list: &mut Vec<String>, exts: &[&str], Ghost(given): Ghost<Seq<Seq<char>>>)
    requires
        views(old(list)@) == firsts(given, itself()),
    ensures
        views(final(list)@) == firsts(given + slice_views(exts@), itself()),
{
    let ghost key = itself();
    let ghost more = slice_views(exts@);
    let mut i: usize = 0;
    assert(given + more.take(0) =~= given);
    while i < exts.len()
        invariant
            0 <= i <= exts@.len(),
            more == slice_views(exts@),
            key == itself(),
            views(list@) == firsts(given + more.take(i as int), key),
        decreases exts@.len() - i,
    {
        let ghost done = given + more.take(i as int);
        let e = exts[i];
        proof {
            assert((given + more.take(i + 1)).drop_last() =~= done);
            assert((given + more.take(i + 1)).last() == e@);
            firsts_keys(done, key);
            assert(has_key(firsts(done, key), key, e@) == has_key(done, key, e@));
            if views(list@).contains(e@) {
                let k = choose|k: int| 0 <= k < views(list@).len() && views(list@)[k] == e@;
                assert(key(views(list@)[k]) == e@);
            }
        }
        if !list_contains(list, e) {
            let ghost before = views(list@);
            list.push(e.to_string());
            assert(views(list@) =~= before.push(e@));
        }
        i = i + 1;
    }
    assert(more.take(i as int) =~= more);
}

/// File extensions to watch and index for the languages, each once, in alphabetical order.
pub fn language_extensions(languages: &Vec<Language>) -> (r: Vec<String>)
    ensures
        views(r@) == sorted_by(firsts(all_suffixes(languages@), itself()), rank::<String>()),
{
    let mut exts: Vec<String> = Vec::new();
    let mut i: usize = 0;
    let ghost all = languages@;
    assert(all.take(0) =~= Seq::empty());
    assert(views(exts@) =~= Seq::empty());
    while i < languages.len()
        invariant
            0 <= i <= languages@.len(),
            all == languages@,
            views(exts@) == firsts(all_suffixes(all.take(i as int)), itself()),
        decreases languages@.len() - i,
    {
        let lang = languages[i];
        let ghost done = all_suffixes(all.take(i as int));
        assert(all.take(i + 1).drop_last() =~= all.take(i as int));
        assert(all.take(i + 1).last() == lang);
        match lang {
            Language::TypeScript | Language::JavaScript => {
                let ts = Language::TypeScript.extensions();
                add_new(&mut exts, ts, Ghost(done));
                let js = Language::JavaScript.extensions();
                add_new(&mut exts, js, Ghost(done + Language::TypeScript.suffixes()));
                assert(done + Language::TypeScript.suffixes() + Language::JavaScript.suffixes() =~= done
                    + shared_suffixes(lang));
            },
            _ => {
                add_new(&mut exts, lang.extensions(), Ghost(done));
            },
        }
        i = i + 1;
    }
    assert(all.take(i as int) =~= all);
    assert(seen(exts@) =~= views(exts@));
    let out = sort(exts);
    assert(seen(out@) =~= views(out@));
    out
}

/// The files of a language.
pub open spec fn of_language(files: Seq<Source>, lang: Language) -> Seq<Source>
    decreases files.len(),
{
    if files.len() == 0 {
        Seq::empty()
    } else {
        let rest = of_language(files.drop_last(), lang);
        if language_of(files.last().abs_path) == Some(lang) {
            rest.push(files.last())
        } else {
            rest
        }
    }
}

/// Selects the files of a language.
pub fn files_of_language(files: &Vec<FileEntry>, lang: Language) -> (r: Vec<FileEntry>)
    ensures
        seen(r@) == of_language(seen(files@), lang),
{
    let ghost all = seen(files@);
    let mut out: Vec<FileEntry> = Vec::new();
    let mut i: usize = 0;
    assert(all.take(0) =~= Seq::empty());
    assert(seen(out@) =~= Seq::empty());
    while i < files.len()
        invariant
            0 <= i <= files@.len(),
            all == seen(files@),
            seen(out@) == of_language(all.take(i as int), lang),
        decreases files@.len() - i,
    {
        let f = &files[i];
        assert(all.take(i + 1).drop_last() =~= all.take(i as int));
        assert(all.take(i + 1).last() == f@);
        let is_same = match language_for_file(f.abs_path.as_str()) {
            Some(l) => l == lang,
            None => false,
        };
        if is_same {
            let ghost before = seen(out@);
            out.push(FileEntry { abs_path: f.abs_path.clone(), rel_path: f.rel_path.clone(), hash: f.hash.clone() });
            assert(seen(out@) =~= before.push(f@));
        }
        i = i + 1;
    }
    assert(all.take(i as int) =~= all);
    out
}

/// The languages to index: those that were detected, or else those of the workspaces.
pub fn languages_to_index(detected: &Vec<Language>, configured: Vec<Language>) -> (r: Result<Vec<Language>, Response>)
    ensures
        match r {
            Ok(langs) => langs@.len() > 0 && langs@ == if detected@.len() == 0 {
                configured@
            } else {
                detected@
            },
            Err(a) => detected@.len() == 0 && configured@.len() == 0 && a@ == failure(
                "no_language"@,
                "No language detected in project"@,
                None,
            ),
        },
{
    let langs = if detected.len() == 0 {
        configured
    } else {
        copy_languages(detected)
    };
    if langs.len() == 0 {
        Err(Response::err("no_language", "No language detected in project"))
    } else {
        Ok(langs)
    }
}

fn copy_languages(v: &Vec<Language>) -> (r: Vec<Language>)
    ensures
        r@ == v@,
{
    let mut out: Vec<Language> = Vec::new();
    let mut i: usize = 0;
    while i < v.len()
        invariant
            0 <= i <= v@.len(),
            out@ == v@.take(i as int),
        decreases v@.len() - i,
    {
        out.push(v[i]);
        assert(v@.take(i as int).push(v@[i as int]) =~= v@.take(i + 1));
        i = i + 1;
    }
    assert(v@.take(i as int) =~= v@);
    out
}

/// Workspaces with the names of their languages.
pub open spec fn workspace_rows(roots: Seq<(Language, Seq<char>)>, project_root: Seq<char>) -> Seq<
    (Seq<char>, Seq<char>),
> {
    Seq::new(roots.len(), |i: int| (shown_path(roots[i].1, project_root), roots[i].0.label()))
}

/// The workspaces that the index keeps: each path, as seen from the project root, and language.
pub fn workspaces_to_store(roots: &Vec<(Language, String)>, project_root: &str) -> (r: Vec<(String, &'static str)>)
    ensures
        r@.len() == roots@.len(),
        forall|i: int|
            0 <= i < r@.len() ==> ((#[trigger] r@[i]).0@, r@[i].1@) == workspace_rows(
                root_views(roots@),
                project_root@,
            )[i],
{
    let mut out: Vec<(String, &'static str)> = Vec::new();
    let mut i: usize = 0;
    while i < roots.len()
        invariant
            0 <= i <= roots@.len(),
            out@.len() == i,
            forall|k: int|
                0 <= k < i ==> ((#[trigger] out@[k]).0@, out@[k].1@) == workspace_rows(
                    root_views(roots@),
                    project_root@,
                )[k],
        decreases roots@.len() - i,
    {
        out.push((workspace_name(roots[i].1.as_str(), project_root), roots[i].0.name()));
        i = i + 1;
    }
    out
}

/// What an index build did.
pub struct BuildFacts {
    pub db_path: String,
    pub files_to_index: usize,
    pub files_cached: usize,
    pub files_indexed: usize,
    /// Number of symbols that were written.
    pub symbols_written: usize,
    /// Number of all symbols in the index, where it can be read.
    pub symbols_stored: Option<usize>,
    pub elapsed_ms: u64,
    pub batch_size: usize,
    pub workers: usize,
    pub lsp_ms: u64,
    pub commit_ms: u64,
}

/// Number of symbols that is reported: those that were written, or all where none was and files
/// were unchanged.
pub open spec fn reported_symbols(f: BuildFacts) -> int {
    if f.symbols_written == 0 && f.files_cached > 0 {
        match f.symbols_stored {
            Some(n) => n as int,
            None => 0,
        }
    } else {
        f.symbols_written as int
    }
}

/// The answer after the index was built.
pub open spec fn build_json(f: BuildFacts) -> Json {
    Json::Obj(
        seq![
            ("message"@, Json::Str("index built"@)),
            ("db_path"@, Json::Str(f.db_path@)),
            ("files_total"@, Json::Int(f.files_to_index + f.files_cached)),
            ("files_indexed"@, Json::Int(f.files_indexed as int)),
            ("files_cached"@, Json::Int(f.files_cached as int)),
            ("symbols_total"@, Json::Int(reported_symbols(f))),
            ("elapsed_ms"@, Json::Int(f.elapsed_ms as int)),
            ("batch_size"@, Json::Int(f.batch_size as int)),
            ("workers"@, Json::Int(f.workers as int)),
            ("phase2_lsp_ms"@, Json::Int(f.lsp_ms as int)),
            ("phase3_commit_ms"@, Json::Int(f.commit_ms as int)),
        ],
    )
}

/// The answer after the index was built.
pub fn init_response(f: &BuildFacts) -> (r: Response)
    requires
        f.files_to_index + f.files_cached <= usize::MAX,
    ensures
        r@ == success(build_json(*f)),
{
    let symbols: usize = if f.symbols_written == 0 && f.files_cached > 0 {
        match f.symbols_stored {
            Some(n) => n,
            None => 0,
        }
    } else {
        f.symbols_written
    };
    let total: usize = f.files_to_index + f.files_cached;
    let fields = vec![
        field("message", JsonValue::str("index built")),
        field("db_path", JsonValue::str(f.db_path.as_str())),
        field("files_total", JsonValue::number(total)),
        field("files_indexed", JsonValue::number(f.files_indexed)),
        field("files_cached", JsonValue::number(f.files_cached)),
        field("symbols_total", JsonValue::number(symbols)),
        field("elapsed_ms", JsonValue::UInt(f.elapsed_ms)),
        field("batch_size", JsonValue::number(f.batch_size)),
        field("workers", JsonValue::number(f.workers)),
        field("phase2_lsp_ms", JsonValue::UInt(f.lsp_ms)),
        field("phase3_commit_ms", JsonValue::UInt(f.commit_ms)),
    ];
    assert(entries_view(fields@) =~= build_json(*f)->Obj_0);
    Response::ok(JsonValue::object(fields))
}

/// Each file that has symbols is outlined with them, in order, and no other.
pub proof fn files_with_symbols_are_outlined(s: Seq<(Seq<char>, Seq<Entry>)>)
    ensures
        outlined_files(s) == s.filter(|f: (Seq<char>, Seq<Entry>)| f.1.len() > 0).map_values(|f: (Seq<char>, Seq<Entry>)| Json::Obj(seq![("file"@, Json::Str(f.0)), ("symbols"@, entry_list(f.1))])),
    decreases s.len(),
{
    reveal(Seq::filter);
    let p = |f: (Seq<char>, Seq<Entry>)| f.1.len() > 0;
    let make = |f: (Seq<char>, Seq<Entry>)| Json::Obj(seq![("file"@, Json::Str(f.0)), ("symbols"@, entry_list(f.1))]);
    if s.len() > 0 {
        files_with_symbols_are_outlined(s.drop_last());
        let rest = s.drop_last().filter(p);
        if p(s.last()) {
            assert(rest.push(s.last()).map_values(make) =~= rest.map_values(make).push(make(s.last())));
        }
    } else {
        assert(s.filter(p).map_values(make) =~= Seq::empty());
    }
}

/// The files of the language are selected, in order, and no others.
pub proof fn files_of_the_language_are_selected(files: Seq<Source>, lang: Language)
    ensures
        of_language(files, lang) == files.filter(|f: Source| language_of(f.abs_path) == Some(lang)),
    decreases files.len(),
{
    reveal(Seq::filter);
    let p = |f: Source| language_of(f.abs_path) == Some(lang);
    if files.len() > 0 {
        files_of_the_language_are_selected(files.drop_last(), lang);
    } else {
        assert(of_language(files, lang) =~= Seq::empty());
    }
}

/// The extensions are those of all the languages, in order.
pub proof fn all_languages_give_their_suffixes(langs: Seq<Language>)
    ensures
        all_suffixes(langs) == langs.map_values(|l: Language| shared_suffixes(l)).flatten_alt(),
    decreases langs.len(),
{
    let f = |l: Language| shared_suffixes(l);
    let all = langs.map_values(f);
    if langs.len() > 0 {
        all_languages_give_their_suffixes(langs.drop_last());
        assert(all.drop_last() =~= langs.drop_last().map_values(f));
        assert(all.last() == f(langs.last()));
        assert(all_suffixes(langs) =~= all.flatten_alt());
    } else {
        assert(all.flatten_alt() =~= Seq::<Seq<char>>::empty());
    }
}

/// After a build, the files that were sent to be indexed and those that were unchanged are all the files. The
/// symbols are those that were written or, where nothing was written as all files were unchanged, those that the
/// index holds already.
pub proof fn build_counts_all(f: BuildFacts)
    ensures
        f.symbols_written > 0 || f.files_cached == 0 ==> reported_symbols(f) == f.symbols_written,
        f.symbols_written == 0 && f.files_cached > 0 ==> reported_symbols(f) == f.symbols_stored.unwrap_or(0),
{
}

} // verus!
