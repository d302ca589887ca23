use std::sync::{Arc, Mutex};

use krait::index::builder::{
    detect_batch_size, detect_worker_count, flatten_document_symbols, plan_index, select_source_files, worker_indices,
    workers_for, IndexStats,
};
use krait::index::cache_query::{
    build_hierarchy, cached_find_symbol, cached_list_symbols, cached_read_symbol, is_file_fresh, read_target,
    split_dotted, IndexedFile,
};
use krait::index::hasher::hash_file;
use krait::index::store::{hashes_query, is_named, name_patterns, CachedSymbol};
use krait::index::watcher::{note_change, to_relative, DirtyFiles};
use krait::json::JsonValue;
use krait::lsp::diagnostics::{DiagSeverity, DiagnosticEntry, DiagnosticStore};

fn convert(v: &serde_json::Value) -> JsonValue {
    match v {
        serde_json::Value::Null => JsonValue::Null,
        serde_json::Value::Bool(b) => JsonValue::Bool(*b),
        serde_json::Value::Number(n) => {
            if let Some(u) = n.as_u64() {
                JsonValue::UInt(u)
            } else if let Some(i) = n.as_i64() {
                JsonValue::NegInt(i)
            } else {
                JsonValue::Float(n.to_string())
            }
        }
        serde_json::Value::String(s) => JsonValue::String(s.clone()),
        serde_json::Value::Array(a) => JsonValue::Array(a.iter().map(convert).collect()),
        serde_json::Value::Object(o) => {
            JsonValue::Object(o.iter().map(|(k, x)| (k.clone(), convert(x))).collect())
        }
    }
}

fn json(text: &str) -> JsonValue {
    convert(&serde_json::from_str(text).unwrap())
}

// ── Watcher ─────────────────────────────────────────────────────────────────

#[test]
fn dirty_files_basic() {
    let mut df = DirtyFiles::new();
    assert!(!df.is_dirty("src/lib.rs"));
    assert_eq!(df.len(), 0);
    assert!(df.is_empty());

    df.mark_dirty("src/lib.rs".to_string());
    assert!(df.is_dirty("src/lib.rs"));
    assert!(!df.is_dirty("src/main.rs"));
    assert_eq!(df.len(), 1);
    df.mark_dirty("src/lib.rs".to_string());
    assert_eq!(df.len(), 1);
}

#[test]
fn dirty_files_clear() {
    let mut df = DirtyFiles::new();
    df.mark_dirty("a.rs".to_string());
    df.mark_dirty("b.rs".to_string());
    assert_eq!(df.len(), 2);

    df.clear();
    assert_eq!(df.len(), 0);
    assert!(!df.is_dirty("a.rs"));
}

#[test]
fn dirty_files_poison() {
    let mut df = DirtyFiles::new();
    assert!(!df.is_poisoned());
    assert!(!df.is_dirty("any_file.rs"));

    df.poison();
    assert!(df.is_poisoned());
    assert!(df.is_dirty("any_file.rs"));
    assert!(df.is_dirty("literally_anything"));
}

#[test]
fn dirty_files_clear_resets_poison() {
    let mut df = DirtyFiles::new();
    df.poison();
    assert!(df.is_poisoned());

    df.clear();
    assert!(!df.is_poisoned());
    assert!(!df.is_dirty("test.rs"));
}

#[test]
fn dirty_files_clone_shares_state() {
    let df1 = Arc::new(Mutex::new(DirtyFiles::new()));
    let df2 = df1.clone();

    df1.lock().unwrap().mark_dirty("shared.rs".to_string());
    assert!(df2.lock().unwrap().is_dirty("shared.rs"));
}

fn exts(list: &[&str]) -> Vec<String> {
    list.iter().map(|s| s.to_string()).collect()
}

#[test]
fn to_relative_filters_extension() {
    let e = exts(&["rs", "ts"]);
    assert!(to_relative("/project/src/lib.rs", None, "/project", &e).is_some());
    assert!(to_relative("/project/src/app.ts", None, "/project", &e).is_some());
    assert!(to_relative("/project/README.md", None, "/project", &e).is_none());
    assert!(to_relative("/project/Cargo.toml", None, "/project", &e).is_none());
}

#[test]
fn to_relative_strips_prefix() {
    let rel = to_relative("/project/src/lib.rs", None, "/project", &exts(&["rs"]));
    assert_eq!(rel, Some("src/lib.rs".to_string()));
}

#[test]
fn to_relative_outside_root_returns_none() {
    assert!(to_relative("/other/src/lib.rs", None, "/project", &exts(&["rs"])).is_none());
}

#[test]
fn to_relative_follows_the_canonical_path() {
    let rel = to_relative("/link/src/lib.rs", Some("/project/src/lib.rs"), "/project", &exts(&["rs"]));
    assert_eq!(rel, Some("src/lib.rs".to_string()));
}

#[test]
fn a_change_marks_the_file_and_drops_its_diagnostics() {
    let mut df = DirtyFiles::new();
    let mut store = DiagnosticStore::new();
    let d = DiagnosticEntry {
        severity: DiagSeverity::Error,
        line: 0,
        col: 0,
        code: None,
        message: "x".to_string(),
    };
    store.update("/project/src/lib.rs", vec![d]);
    note_change(&mut df, &mut store, "/project/notes.md", None, "/project", &exts(&["rs"]));
    assert!(df.is_empty());
    assert_eq!(store.total_count(), 1);
    note_change(&mut df, &mut store, "/project/src/lib.rs", None, "/project", &exts(&["rs"]));
    assert!(df.is_dirty("src/lib.rs"));
    assert_eq!(store.total_count(), 0);
}

// ── Hashes ──────────────────────────────────────────────────────────────────

#[test]
fn hash_deterministic() {
    let h1 = hash_file(b"hello world");
    let h2 = hash_file(b"hello world");
    assert_eq!(h1, h2);
    assert!(!h1.is_empty());
    assert_eq!(h1, "d74981efa70a0c880b8d8c1985d075dbcbf679b99a5f9914e5aaf96b831a9e24");
}

#[test]
fn hash_changes_on_modify() {
    assert_ne!(hash_file(b"version 1"), hash_file(b"version 2"));
}

#[test]
fn hash_empty_file() {
    let hash = hash_file(b"");
    assert!(!hash.is_empty());
    assert_eq!(hash, "af1349b9f5f9a1a6a0404dea36dcc9499bcb25c9adc112b7cc9a93cae41f3262");
}

// ── Building ────────────────────────────────────────────────────────────────

#[test]
fn flatten_empty_response() {
    assert!(flatten_document_symbols(&JsonValue::Null, None).is_empty());
}

#[test]
fn flatten_nested_symbols() {
    let response = json(
        r#"[
            {
                "name": "Config",
                "kind": 5,
                "range": {"start": { "line": 0, "character": 0 }, "end": { "line": 20, "character": 1 }},
                "children": [
                    {
                        "name": "new",
                        "kind": 6,
                        "range": {"start": { "line": 5, "character": 2 }, "end": { "line": 10, "character": 3 }}
                    }
                ]
            },
            {
                "name": "greet",
                "kind": 12,
                "range": {"start": { "line": 22, "character": 0 }, "end": { "line": 25, "character": 1 }}
            }
        ]"#,
    );
    let symbols = flatten_document_symbols(&response, None);
    assert_eq!(symbols.len(), 3);
    assert_eq!(symbols[0].name, "Config");
    assert!(symbols[0].parent_name.is_none());
    assert_eq!(symbols[1].name, "new");
    assert_eq!(symbols[1].parent_name, Some("Config".to_string()));
    assert_eq!(
        (symbols[1].range_start_line, symbols[1].range_start_col, symbols[1].range_end_line, symbols[1].range_end_col),
        (5, 2, 10, 3)
    );
    assert_eq!(symbols[2].name, "greet");
    assert!(symbols[2].parent_name.is_none());
}

#[test]
fn walk_source_files_filters_by_extension() {
    let walked = exts(&["/p/main.rs", "/p/lib.rs", "/p/notes.txt", "/p/data.json"]);
    let files = select_source_files(walked, &exts(&["rs"]));
    assert_eq!(files, vec!["/p/lib.rs", "/p/main.rs"]);
}

#[test]
fn unchanged_files_are_not_indexed_again() {
    let hashes = vec![
        ("/p/a.rs".to_string(), "1".to_string()),
        ("/p/b.rs".to_string(), "2".to_string()),
        ("/p/c.rs".to_string(), "3".to_string()),
    ];
    let stored = vec![("a.rs".to_string(), "1".to_string()), ("b.rs".to_string(), "0".to_string())];
    let (to_index, cached) = plan_index(hashes, &stored, "/p");
    assert_eq!(cached, 1);
    assert_eq!(to_index.len(), 2);
    assert_eq!(to_index[0].rel_path, "b.rs");
    assert_eq!(to_index[0].abs_path, "/p/b.rs");
    assert_eq!(to_index[1].hash, "3");
}

#[test]
fn sizes_depend_on_the_processors() {
    assert_eq!(detect_batch_size(Some(1)), 8);
    assert_eq!(detect_batch_size(Some(8)), 32);
    assert_eq!(detect_batch_size(Some(100)), 64);
    assert_eq!(detect_batch_size(None), 16);
    assert_eq!(detect_worker_count(Some(1)), 1);
    assert_eq!(detect_worker_count(Some(8)), 5);
    assert_eq!(detect_worker_count(Some(64)), 10);
    assert_eq!(detect_worker_count(None), 2);
    assert_eq!(workers_for(5, 2), 2);
    assert_eq!(workers_for(5, 0), 1);
    assert_eq!(workers_for(3, 9), 3);
}

#[test]
fn workers_take_turns() {
    assert_eq!(worker_indices(7, 0, 3), vec![0, 3, 6]);
    assert_eq!(worker_indices(7, 1, 3), vec![1, 4]);
    assert_eq!(worker_indices(7, 2, 3), vec![2, 5]);
    assert_eq!(worker_indices(0, 0, 3), Vec::<usize>::new());
}

#[test]
fn stats_start_at_zero() {
    let s = IndexStats::default();
    assert_eq!((s.files_total, s.files_indexed, s.files_cached, s.symbols_total), (0, 0, 0, 0));
}

// ── Store ───────────────────────────────────────────────────────────────────

#[test]
fn queries_name_their_parameters() {
    assert_eq!(hashes_query(3), "SELECT path, blake3_hash FROM files WHERE path IN (?1,?2,?3)");
    assert!(is_named("Save", "Save") && is_named("(*Repo).Save", "Save") && is_named("(*Repo).\"Save\"", "Save"));
    assert!(!is_named("(*Repo).save", "Save") && !is_named("save", "Save") && !is_named("Repo.Save", "Save"));
    let (bare, quoted) = name_patterns("Save");
    assert_eq!(bare, "%).Save");
    assert_eq!(quoted, "%).\"Save\"");
}

// ── Cached answers ──────────────────────────────────────────────────────────

const LIB: &str = "// line 1\nstruct Config {\n    name: String,\n    value: u32,\n}\n\nimpl Config {\n    fn new() -> Self {\n        Config { name: String::new(), value: 0 }\n    }\n}\n";

fn row(name: &str, kind: &str, lines: (u32, u32), cols: (u32, u32), parent: Option<&str>) -> CachedSymbol {
    CachedSymbol {
        name: name.to_string(),
        kind: kind.to_string(),
        path: "src/lib.rs".to_string(),
        range_start_line: lines.0,
        range_start_col: cols.0,
        range_end_line: lines.1,
        range_end_col: cols.1,
        parent_name: parent.map(|p| p.to_string()),
    }
}

fn rows() -> Vec<CachedSymbol> {
    vec![
        row("Config", "struct", (1, 4), (0, 1), None),
        row("name", "field", (2, 2), (4, 20), Some("Config")),
        row("value", "field", (3, 3), (4, 15), Some("Config")),
        row("new", "function", (7, 9), (4, 5), Some("Config")),
    ]
}

fn named(name: &str) -> Vec<CachedSymbol> {
    rows().into_iter().filter(|r| r.name == name).collect()
}

fn indexed(content: &str) -> IndexedFile {
    IndexedFile {
        path: "src/lib.rs".to_string(),
        hash: Some(hash_file(LIB.as_bytes())),
        content: Some(content.as_bytes().to_vec()),
    }
}

fn unknown(path: &str) -> IndexedFile {
    IndexedFile { path: path.to_string(), hash: None, content: None }
}

fn read(
    name: &str,
    signature_only: bool,
    max_lines: Option<u32>,
    content: &str,
    dirty: Option<&DirtyFiles>,
) -> Option<JsonValue> {
    let (owner, _) = split_dotted(name);
    let by_name = named(&owner);
    let in_file = rows();
    let target = read_target(name, &by_name, &in_file)?;
    cached_read_symbol(target, signature_only, max_lines, &indexed(content), dirty)
}

fn text<'a>(v: &'a JsonValue, key: &str) -> &'a str {
    v.get(key).unwrap().as_str().unwrap()
}

fn number(v: &JsonValue, key: &str) -> u64 {
    v.get(key).unwrap().as_u64().unwrap()
}

#[test]
fn file_freshness_matches() {
    assert!(is_file_fresh(&indexed(LIB), None));
}

#[test]
fn file_freshness_stale_after_modify() {
    assert!(!is_file_fresh(&indexed("modified content"), None));
}

#[test]
fn file_freshness_missing_file() {
    assert!(!is_file_fresh(&unknown("nonexistent.rs"), None));
}

#[test]
fn fresh_with_watcher_clean_file() {
    let df = DirtyFiles::new();
    assert!(is_file_fresh(&indexed(LIB), Some(&df)));
}

#[test]
fn stale_with_watcher_dirty_file() {
    let mut df = DirtyFiles::new();
    df.mark_dirty("src/lib.rs".to_string());
    assert!(!is_file_fresh(&indexed(LIB), Some(&df)));
}

#[test]
fn stale_with_watcher_poisoned() {
    let mut df = DirtyFiles::new();
    df.poison();
    assert!(!is_file_fresh(&indexed(LIB), Some(&df)));
}

#[test]
fn stale_with_watcher_not_indexed() {
    let df = DirtyFiles::new();
    assert!(!is_file_fresh(&unknown("unknown.rs"), Some(&df)));
}

#[test]
fn find_symbol_from_cache() {
    let results = cached_find_symbol(named("Config"), &vec![indexed(LIB)], None).unwrap();
    assert_eq!(results.len(), 1);
    assert_eq!(results[0].kind, "struct");
    assert_eq!(results[0].line, 2);
    assert_eq!(results[0].path, "src/lib.rs");
    assert!(results[0].preview.contains("struct Config"));
}

#[test]
fn find_symbol_stale_file() {
    assert!(cached_find_symbol(named("Config"), &vec![indexed("modified")], None).is_none());
}

#[test]
fn find_symbol_dirty_via_watcher() {
    let mut df = DirtyFiles::new();
    df.mark_dirty("src/lib.rs".to_string());
    assert!(cached_find_symbol(named("Config"), &vec![indexed(LIB)], Some(&df)).is_none());
}

#[test]
fn find_symbol_clean_via_watcher() {
    let df = DirtyFiles::new();
    let results = cached_find_symbol(named("Config"), &vec![indexed(LIB)], Some(&df)).unwrap();
    assert_eq!(results.len(), 1);
}

#[test]
fn find_symbol_not_in_cache() {
    assert!(cached_find_symbol(named("NonExistent"), &vec![indexed(LIB)], None).is_none());
}

#[test]
fn list_symbols_from_cache() {
    let symbols = cached_list_symbols(&rows(), 2, &indexed(LIB), None).unwrap();
    assert_eq!(symbols.len(), 1);
    assert_eq!(symbols[0].name, "Config");
    assert_eq!(symbols[0].children.len(), 3);
}

#[test]
fn list_symbols_depth_1() {
    let symbols = cached_list_symbols(&rows(), 1, &indexed(LIB), None).unwrap();
    assert_eq!(symbols.len(), 1);
    assert!(symbols[0].children.is_empty());
}

#[test]
fn list_symbols_stale_file() {
    assert!(cached_list_symbols(&rows(), 2, &indexed("modified"), None).is_none());
}

#[test]
fn list_symbols_dirty_via_watcher() {
    let mut df = DirtyFiles::new();
    df.mark_dirty("src/lib.rs".to_string());
    assert!(cached_list_symbols(&rows(), 2, &indexed(LIB), Some(&df)).is_none());
}

#[test]
fn read_symbol_from_cache() {
    let result = read("Config", false, None, LIB, None).unwrap();
    assert_eq!(text(&result, "path"), "src/lib.rs");
    assert_eq!(text(&result, "symbol"), "Config");
    assert_eq!(text(&result, "kind"), "struct");
    assert_eq!(number(&result, "from"), 2);
    assert_eq!(result.get("truncated").unwrap(), &JsonValue::Bool(false));
    assert!(text(&result, "content").contains("struct Config"));
}

#[test]
fn read_symbol_signature_only() {
    let result = read("Config", true, None, LIB, None).unwrap();
    let content = text(&result, "content");
    assert!(content.contains("struct Config"));
    assert!(!content.contains("value"));
}

#[test]
fn read_symbol_dotted_name() {
    let result = read("Config.new", false, None, LIB, None).unwrap();
    assert_eq!(text(&result, "symbol"), "new");
    assert_eq!(text(&result, "kind"), "function");
    assert!(text(&result, "content").contains("fn new"));
}

#[test]
fn read_symbol_stale_file() {
    assert!(read("Config", false, None, "modified", None).is_none());
}

#[test]
fn read_symbol_dirty_via_watcher() {
    let mut df = DirtyFiles::new();
    df.mark_dirty("src/lib.rs".to_string());
    assert!(read("Config", false, None, LIB, Some(&df)).is_none());
}

#[test]
fn read_symbol_not_found() {
    assert!(read("NonExistent", false, None, LIB, None).is_none());
}

#[test]
fn read_symbol_max_lines() {
    let result = read("Config", false, Some(2), LIB, None).unwrap();
    assert_eq!(result.get("truncated").unwrap(), &JsonValue::Bool(true));
    assert_eq!(number(&result, "to"), 3);
}

#[test]
fn hierarchy_preserves_line_numbers() {
    let symbols = cached_list_symbols(&rows(), 2, &indexed(LIB), None).unwrap();
    assert_eq!(symbols[0].line, 2);
    assert_eq!(symbols[0].end_line, 5);
    assert_eq!(build_hierarchy(&rows(), 2)[0].children[2].line, 8);
}

#[test]
fn empty_index_returns_none() {
    assert!(cached_find_symbol(vec![], &vec![], None).is_none());
    assert!(cached_list_symbols(&vec![], 2, &unknown("src/lib.rs"), None).is_none());
    assert!(read_target("Foo", &vec![], &vec![]).is_none());
}

#[test]
fn trusting_the_watcher_needs_no_hash() {
    let df = DirtyFiles::new();
    let symbols = cached_list_symbols(&rows(), 1, &indexed("modified"), Some(&df));
    assert!(symbols.is_some());
}
