use krait::commands::find::{ReferenceMatch, SymbolMatch};
use krait::detect::language::Language;
use krait::json::JsonValue;
use krait::lsp::client::{
    build_initialize_params, check_initialize_result, path_to_uri, supports_workspace_folders, timeout_message,
    AttachedFolders, Inbox, WaitStep,
};
use krait::lsp::diagnostics::{ingest_publish_diagnostics, DiagSeverity, DiagnosticEntry, DiagnosticStore};
use krait::lsp::error::LspError;
use krait::lsp::files::FileTracker;
use krait::lsp::install::{install_failed, missing_runtime, not_installed, plan_install, InstallPlan};
use krait::lsp::pool::{
    add_session, backoff_delay, busy_status, ensure_running, find_warmup_file, pick_session, probe_again,
    record_first_boot, route_with_root, slot_status, LanguageState, LspMultiplexer, NotReadyReason, Pulse, RouteStep,
    ServerSlot, StartStep,
};
use krait::lsp::registry::{
    detect_platform, find_managed, find_server, get_entries, get_entry, managed_candidates, resolve_download_url,
    resolve_server, servers_dir, ArchiveType, InstallMethod,
};
use krait::lsp::router::{merge_reference_results, merge_symbol_results};
use krait::lsp::symbols::{parse_symbol_locations, resolve_symbol_range};
use krait::lsp::transport::{
    classify_message, frame_message, parse_number, read_body, HeaderReader, HeaderStep, JsonRpcMessage, RequestIds,
};

fn convert(v: &serde_json::Value) -> JsonValue {
    match v {
        serde_json::Value::Null => JsonValue::Null,
        serde_json::Value::Bool(b) => JsonValue::Bool(*b),
        serde_json::Value::Number(n) => {
            if let Some(u) = n.as_u64() {
                JsonValue::UInt(u)
            } else if let Some(i) = n.as_i64() {
                JsonValue::NegInt(i)
            } else {
                JsonValue::Float(n.to_string())
            }
        }
        serde_json::Value::String(s) => JsonValue::String(s.clone()),
        serde_json::Value::Array(a) => JsonValue::Array(a.iter().map(convert).collect()),
        serde_json::Value::Object(o) => {
            JsonValue::Object(o.iter().map(|(k, x)| (k.clone(), convert(x))).collect())
        }
    }
}

fn json(text: &str) -> JsonValue {
    convert(&serde_json::from_str(text).unwrap())
}

// ── Client ──────────────────────────────────────────────────────────────────

#[test]
fn path_to_uri_absolute() {
    assert_eq!(path_to_uri("/tmp/test-project").ok().unwrap(), "file:///tmp/test-project");
    assert_eq!(path_to_uri("src/a.rs").err().unwrap(), "path is not absolute: src/a.rs");
}

#[test]
fn bodies_are_read_as_messages() {
    match read_body(br#"{"jsonrpc":"2.0","id":3,"result":{"ok":true}}"#) {
        Ok(JsonRpcMessage::Response { id, result, error }) => {
            assert_eq!(id, 3);
            assert!(result.unwrap().get("ok").is_some() && error.is_none());
        }
        _ => panic!("a response"),
    }
    assert!(read_body(b"not json").is_err());
    assert!(read_body(b"{}").err().unwrap().starts_with("unrecognized JSON-RPC message"));
}

#[test]
fn handshake_answers_are_checked() {
    let good = JsonValue::object(vec![("capabilities".to_string(), JsonValue::object(vec![]))]);
    assert!(check_initialize_result(&good).is_ok());
    assert_eq!(check_initialize_result(&JsonValue::Null).err().unwrap(), "failed to parse InitializeResult");
}

#[test]
fn path_that_makes_no_uri_is_refused() {
    assert!(path_to_uri("/tmp/a b").err().unwrap().starts_with("invalid URI"));
}

#[test]
fn build_params_has_required_fields() {
    let uri = path_to_uri("/tmp/test-project").ok().unwrap();
    let params = build_initialize_params(&uri, "/tmp/test-project", 4711);
    assert_eq!(params.get("processId").unwrap().as_u64(), Some(4711));
    let caps = params.get("capabilities").unwrap();
    assert!(caps.get("textDocument").is_some());
    assert!(caps.get("workspace").is_some());
    let folders = params.get("workspaceFolders").unwrap().as_array().unwrap();
    assert_eq!(folders.len(), 1);
    assert_eq!(folders[0].get("name").unwrap().as_str(), Some("test-project"));
    assert_eq!(folders[0].get("uri").unwrap().as_str(), Some("file:///tmp/test-project"));
}

#[test]
fn build_params_declares_workspace_folder_support() {
    let params = build_initialize_params("file:///tmp/test-project", "/tmp/test-project", 1);
    let ws = params.get("capabilities").unwrap().get("workspace").unwrap();
    assert_eq!(ws.get("workspaceFolders"), Some(&JsonValue::Bool(true)));
}

#[test]
fn attached_folders_tracking() {
    let mut folders = AttachedFolders::new("/project", true);
    let p1 = "/project/packages/api";
    let p2 = "/project/packages/web";
    assert!(!folders.is_folder_attached(p1));
    assert!(folders.attach_folder(p1, "file:///project/packages/api").is_some());
    assert!(folders.is_folder_attached(p1));
    assert!(!folders.is_folder_attached(p2));
    assert!(folders.attach_folder(p1, "file:///project/packages/api").is_none());
    assert_eq!(folders.folders.len(), 2);
    assert!(folders.attach_folder(p2, "file:///project/packages/web").is_some());
    assert_eq!(folders.folders.len(), 3);
    assert!(folders.detach_folder(p1, "file:///project/packages/api").is_some());
    assert_eq!(folders.folders.len(), 2);
    assert!(!folders.is_folder_attached(p1));
}

#[test]
fn folder_support_is_read_from_the_capabilities() {
    let yes = json(r#"{"capabilities": {"workspace": {"workspaceFolders": {"supported": true}}}}"#);
    assert!(supports_workspace_folders(&yes));
    assert!(!supports_workspace_folders(&json(r#"{"capabilities": {}}"#)));
}

#[test]
fn early_response_is_kept_for_its_waiter() {
    let mut inbox = Inbox::new();
    let mut store = DiagnosticStore::new();
    let early = classify_message(&json(r#"{"id": 8, "result": 5}"#)).ok().unwrap();
    assert!(matches!(inbox.on_message(7, early, &mut store), WaitStep::Continue));
    let wanted = classify_message(&json(r#"{"id": 7, "result": 4}"#)).ok().unwrap();
    match inbox.on_message(7, wanted, &mut store) {
        WaitStep::Done(Ok(v)) => assert_eq!(v, JsonValue::UInt(4)),
        _ => panic!("should be done"),
    }
    assert_eq!(inbox.take(8).unwrap().ok().unwrap(), JsonValue::UInt(5));
    assert!(inbox.take(8).is_none());
    assert_eq!(timeout_message(30), "timed out waiting for response (30s)");
}

#[test]
fn notifications_feed_the_diagnostics_while_waiting() {
    let mut inbox = Inbox::new();
    let mut store = DiagnosticStore::new();
    let note = classify_message(&json(
        r#"{"method": "textDocument/publishDiagnostics", "params": {"uri": "file:///p/a.rs", "diagnostics": [
            {"range": {"start": {"line": 1, "character": 2}}, "severity": 2, "message": "m"}]}}"#,
    ))
    .ok()
    .unwrap();
    assert!(matches!(inbox.on_message(1, note, &mut store), WaitStep::Continue));
    assert_eq!(store.get("/p/a.rs").len(), 1);
    let request = classify_message(&json(r#"{"id": 3, "method": "window/workDoneProgress/create"}"#)).ok().unwrap();
    assert!(matches!(inbox.on_message(1, request, &mut store), WaitStep::Reply(_)));
}

// ── Diagnostics ─────────────────────────────────────────────────────────────

fn err(msg: &str) -> DiagnosticEntry {
    DiagnosticEntry { severity: DiagSeverity::Error, line: 1, col: 0, code: None, message: msg.to_string() }
}

#[test]
fn store_and_retrieve_diagnostics() {
    let mut store = DiagnosticStore::new();
    store.update("/project/src/lib.rs", vec![err("oops")]);
    let diags = store.get("/project/src/lib.rs");
    assert_eq!(diags.len(), 1);
    assert_eq!(diags[0].message, "oops");
}

#[test]
fn update_replaces_previous() {
    let mut store = DiagnosticStore::new();
    store.update("/project/src/lib.rs", vec![err("first")]);
    store.update(
        "/project/src/lib.rs",
        vec![DiagnosticEntry {
            severity: DiagSeverity::Warning,
            line: 2,
            col: 0,
            code: None,
            message: "second".to_string(),
        }],
    );
    let diags = store.get("/project/src/lib.rs");
    assert_eq!(diags.len(), 1);
    assert_eq!(diags[0].message, "second");
}

#[test]
fn get_nonexistent_returns_empty() {
    assert!(DiagnosticStore::new().get("/nonexistent.rs").is_empty());
}

#[test]
fn get_all_returns_everything() {
    let mut store = DiagnosticStore::new();
    store.update("/a.rs", vec![err("a")]);
    store.update("/b.rs", vec![err("b")]);
    assert_eq!(store.get_all().len(), 2);
    assert_eq!(store.total_count(), 2);
}

#[test]
fn update_empty_clears_entry() {
    let mut store = DiagnosticStore::new();
    store.update("/project/lib.rs", vec![err("e")]);
    store.update("/project/lib.rs", vec![]);
    assert!(store.get("/project/lib.rs").is_empty());
    assert!(store.get_all().is_empty());
}

#[test]
fn clearing_removes_one_file() {
    let mut store = DiagnosticStore::new();
    store.update("/a.rs", vec![err("a")]);
    store.update("/b.rs", vec![err("b")]);
    store.clear("/a.rs");
    assert!(store.get("/a.rs").is_empty());
    assert_eq!(store.get("/b.rs").len(), 1);
}

#[test]
fn ingest_publish_diagnostics_parses_notification() {
    let mut store = DiagnosticStore::new();
    let params = json(
        r#"{
            "uri": "file:///project/src/lib.rs",
            "diagnostics": [{
                "range": {"start": {"line": 41, "character": 9}, "end": {"line": 41, "character": 15}},
                "severity": 1,
                "code": "E0308",
                "message": "mismatched types"
            }]
        }"#,
    );
    ingest_publish_diagnostics(Some(&params), &mut store);
    let diags = store.get("/project/src/lib.rs");
    assert_eq!(diags.len(), 1);
    assert_eq!(diags[0].severity, DiagSeverity::Error);
    assert_eq!(diags[0].line, 41);
    assert_eq!(diags[0].code.as_deref(), Some("E0308"));
    assert_eq!(diags[0].message, "mismatched types");
}

#[test]
fn ingest_clears_on_empty_array() {
    let mut store = DiagnosticStore::new();
    store.update("/project/src/lib.rs", vec![err("old")]);
    let params = json(r#"{"uri": "file:///project/src/lib.rs", "diagnostics": []}"#);
    ingest_publish_diagnostics(Some(&params), &mut store);
    assert!(store.get("/project/src/lib.rs").is_empty());
}

#[test]
fn severity_ordering_errors_first() {
    assert!(DiagSeverity::Error < DiagSeverity::Warning);
    assert!(DiagSeverity::Warning < DiagSeverity::Information);
    assert!(DiagSeverity::Information < DiagSeverity::Hint);
}

// ── Errors ──────────────────────────────────────────────────────────────────

#[test]
fn server_not_found_display_includes_advice() {
    let err = LspError::ServerNotFound {
        language: Language::Rust,
        advice: "Install: rustup component add rust-analyzer".to_string(),
    };
    let msg = err.message();
    assert!(msg.contains("rust"));
    assert!(msg.contains("rust-analyzer"));
}

#[test]
fn initialize_failed_display() {
    let err = LspError::InitializeFailed { message: "server returned error".to_string() };
    assert!(err.message().contains("server returned error"));
}

#[test]
fn timeout_display() {
    let err = LspError::Timeout { operation: "initialize".to_string(), seconds: 30 };
    let msg = err.message();
    assert!(msg.contains("initialize"));
    assert!(msg.contains("30"));
}

#[test]
fn server_crashed_with_code() {
    assert!(LspError::ServerCrashed { exit_code: Some(1) }.message().contains("exit code 1"));
}

#[test]
fn server_crashed_no_code() {
    assert!(LspError::ServerCrashed { exit_code: None }.message().contains("no exit code"));
}

// ── Files ───────────────────────────────────────────────────────────────────

#[test]
fn new_tracker_is_empty() {
    assert_eq!(FileTracker::new(Language::Rust).open_count(), 0);
}

#[test]
fn is_open_returns_false_for_unknown_file() {
    assert!(!FileTracker::new(Language::Rust).is_open("/tmp/nonexistent.rs"));
}

#[test]
fn file_is_opened_once() {
    let mut tracker = FileTracker::new(Language::Rust);
    let opened = tracker.ensure_open("/p/a.rs", "file:///p/a.rs", "fn a() {}").unwrap();
    let doc = opened.get("textDocument").unwrap();
    assert_eq!(doc.get("uri").unwrap().as_str(), Some("file:///p/a.rs"));
    assert_eq!(doc.get("languageId").unwrap().as_str(), Some("rust"));
    assert_eq!(doc.get("text").unwrap().as_str(), Some("fn a() {}"));
    assert!(tracker.ensure_open("/p/a.rs", "file:///p/a.rs", "").is_none());
    assert_eq!(tracker.open_count(), 1);
    assert!(tracker.close("/p/a.rs", "file:///p/a.rs").is_some());
    assert!(tracker.close("/p/a.rs", "file:///p/a.rs").is_none());
    assert_eq!(tracker.open_count(), 0);
    let (closed, opened) = tracker.reopen("/p/a.rs", "file:///p/a.rs", Some("fn b() {}"));
    assert!(closed.is_none());
    assert_eq!(opened.unwrap().get("textDocument").unwrap().get("text").unwrap().as_str(), Some("fn b() {}"));
    let (closed, opened) = tracker.reopen("/p/a.rs", "file:///p/a.rs", None);
    assert!(closed.is_some() && opened.is_none());
    assert!(tracker.ensure_open("/p/b.rs", "file:///p/b.rs", "").is_some());
    assert_eq!(tracker.close_all(), vec!["/p/b.rs".to_string()]);
    assert_eq!(tracker.open_count(), 0);
    for path in ["/p//a.rs", "/p/b.rs", "/p/./c.rs"] {
        assert!(tracker.ensure_open(path, "file:///x", "").is_some());
    }
    assert!(tracker.close("/p/b.rs", "file:///p/b.rs").is_some());
    assert_eq!(tracker.close_all(), vec!["/p//a.rs".to_string(), "/p/./c.rs".to_string()]);
}

// ── Pool ────────────────────────────────────────────────────────────────────

fn root(lang: Language, path: &str) -> (Language, String) {
    (lang, path.to_string())
}

fn two_languages() -> Vec<(Language, String)> {
    vec![
        root(Language::TypeScript, "/project/packages/api"),
        root(Language::TypeScript, "/project/packages/web"),
        root(Language::Rust, "/project"),
    ]
}

#[test]
fn multiplexer_starts_empty() {
    let mux = LspMultiplexer::new("/tmp", vec![]);
    assert!(mux.active_languages(&vec![]).is_empty());
    assert!(mux.status(&vec![], 0).is_empty());
}

#[test]
fn not_ready_reason_display() {
    assert_eq!(NotReadyReason::NotStarted.message(), "server not yet started");
    assert_eq!(NotReadyReason::Failed("crashed".to_string()).message(), "server failed: crashed");
    assert_eq!(NotReadyReason::NotFound.message(), "no server configured for this scope");
}

#[test]
fn readiness_tracks_unique_languages() {
    let mux = LspMultiplexer::new("/project", two_languages());
    let idle = LanguageState::new();
    let r = mux.readiness(&vec![(Language::TypeScript, Some(&idle)), (Language::Rust, Some(&idle))]);
    assert_eq!(r.ready, 0);
    assert_eq!(r.total, 2);
    assert!(!r.is_all_ready());
    assert!(mux.readiness(&vec![(Language::TypeScript, None), (Language::Rust, None)]).is_all_ready());
}

#[test]
fn unique_languages_deduplicates() {
    let mux = LspMultiplexer::new("/project", two_languages());
    let langs = mux.unique_languages();
    assert_eq!(langs.len(), 2);
    assert_eq!(langs, vec![Language::Rust, Language::TypeScript]);
}

#[test]
fn status_shows_pending_with_folder_counts() {
    let roots = vec![
        root(Language::TypeScript, "/project/packages/api"),
        root(Language::TypeScript, "/project/packages/web"),
    ];
    let mux = LspMultiplexer::new("/project", roots);
    let idle = LanguageState::new();
    let statuses = mux.status(&vec![(Language::TypeScript, Some(&idle))], 0);
    assert_eq!(statuses.len(), 1);
    assert_eq!(statuses[0].status, "pending");
    assert_eq!(statuses[0].total_folders, 2);
    assert_eq!(statuses[0].attached_folders, 0);
    assert_eq!(mux.status(&vec![], 0)[0].status, "pending");
    assert_eq!(mux.status(&vec![(Language::TypeScript, None)], 0)[0].status, "ready");
    assert_eq!(busy_status(Language::Go, 1).status, "ready");
}

#[test]
fn find_nearest_workspace_picks_deepest() {
    let roots = vec![root(Language::TypeScript, "/project"), root(Language::TypeScript, "/project/packages/api")];
    let mux = LspMultiplexer::new("/project", roots);
    let result = mux.find_nearest_workspace("/project/packages/api/src/main.ts", Language::TypeScript);
    assert_eq!(result, Some("/project/packages/api".to_string()));
    let (lang, nearest) = mux.route_for_file("/project/packages/api/src/main.ts").unwrap();
    assert_eq!((lang, nearest.as_str()), (Language::TypeScript, "/project/packages/api"));
    assert_eq!(mux.route_for_file("/elsewhere/a.ts").unwrap().1, "/project");
    assert_eq!(mux.route_for_file("/project/a.rs").unwrap_err(), "no language slot for rust");
    assert_eq!(mux.route_for_file("/project/a.txt").unwrap_err(), "unknown language for /project/a.txt");
}

#[test]
fn find_nearest_workspace_returns_none_for_wrong_lang() {
    let mux = LspMultiplexer::new("/project", vec![root(Language::Rust, "/project")]);
    assert!(mux.find_nearest_workspace("/project/src/index.ts", Language::TypeScript).is_none());
}

#[test]
fn initial_root_picks_first_for_language() {
    let roots = vec![
        root(Language::TypeScript, "/project/packages/api"),
        root(Language::TypeScript, "/project/packages/web"),
    ];
    let mux = LspMultiplexer::new("/project", roots);
    assert_eq!(mux.initial_root(Language::TypeScript), "/project/packages/api");
    assert_eq!(mux.roots_for_language(Language::TypeScript).len(), 2);
}

#[test]
fn initial_root_falls_back_to_project_root() {
    let mux = LspMultiplexer::new("/project", vec![root(Language::Rust, "/project")]);
    assert_eq!(mux.initial_root(Language::Go), "/project");
}

#[test]
fn is_ready_for_unbooted() {
    let mux = LspMultiplexer::new("/project", vec![root(Language::Rust, "/project")]);
    assert!(!mux.is_ready(&vec![(Language::Rust, Some(&LanguageState::new()))], Language::Rust));
    assert!(!mux.is_ready(&vec![(Language::Rust, None)], Language::Rust));
}

#[test]
fn ten_sessions_run_at_once_unless_configured() {
    let mux = LspMultiplexer::new("/", vec![]);
    let mut state = LanguageState::new();
    record_first_boot(&mut state, slot("/r0", 1), false);
    for i in 1..9u64 {
        assert!(add_session(&mut state, Language::Go, slot(&format!("/r{}", i), i + 1)).is_ok());
    }
    assert!(mux.make_room(&mut state).is_none());
    assert!(add_session(&mut state, Language::Go, slot("/r9", 10)).is_ok());
    assert_eq!(mux.make_room(&mut state).unwrap().root, "/r0");
}

#[test]
fn set_max_lru_sessions() {
    let mut mux = LspMultiplexer::new("/project", vec![]);
    mux.set_max_lru_sessions(5);
    assert_eq!(mux.max_lru_sessions, 5);
}

#[test]
fn set_and_get_priority_roots() {
    let mut mux = LspMultiplexer::new("/project", two_languages());
    assert!(mux.priority_roots().is_empty());
    mux.set_priority_roots(vec!["/project/packages/core".to_string(), "/project/packages/api".to_string()]);
    assert_eq!(mux.priority_roots().len(), 2);
    assert!(mux.priority_roots().contains(&"/project/packages/core".to_string()));
    assert_eq!(mux.priority_workspaces(), vec![root(Language::TypeScript, "/project/packages/api")]);
}

#[test]
fn find_warmup_file_prefers_src() {
    let listings = vec![
        vec!["/p/src/main.rs".to_string()],
        vec![],
        vec!["/p/build.rs".to_string(), "/p/src".to_string()],
    ];
    assert_eq!(find_warmup_file(&listings, Language::Rust), Some("/p/src/main.rs".to_string()));
}

#[test]
fn find_warmup_file_finds_ts() {
    let listings = vec![vec!["/p/src/index.ts".to_string()], vec![], vec![]];
    let found = find_warmup_file(&listings, Language::TypeScript).unwrap();
    assert!(found.ends_with(".ts"));
}

#[test]
fn find_warmup_file_returns_none_for_empty() {
    assert!(find_warmup_file(&vec![vec![], vec![], vec![]], Language::Go).is_none());
}

fn slot(root: &str, last_used_at: u64) -> ServerSlot {
    ServerSlot {
        root: root.to_string(),
        server_name: "srv".to_string(),
        started_at: 0,
        last_used_at,
        open_files: 1,
        attached_folders: 1,
    }
}

#[test]
fn least_recent_session_makes_room() {
    let mut state = LanguageState::new();
    record_first_boot(&mut state, slot("/a", 5), false);
    assert!(add_session(&mut state, Language::Go, slot("/b", 3)).is_ok());
    assert!(add_session(&mut state, Language::Go, slot("/c", 9)).is_ok());
    let mut mux = LspMultiplexer::new("/", vec![]);
    assert!(mux.make_room(&mut state).is_none());
    mux.set_max_lru_sessions(3);
    mux.set_priority_roots(vec!["/b".to_string()]);
    let gone = mux.make_room(&mut state).unwrap();
    assert_eq!(gone.root, "/a");
    assert!(matches!(route_with_root(&state, Language::Go, "/c"), RouteStep::UseSession));
}

#[test]
fn crashes_back_off_and_then_fail() {
    let mut state = LanguageState::new();
    record_first_boot(&mut state, slot("/a", 0), true);
    assert!(state.is_ready());
    let pulse = Pulse { alive: false, uptime_secs: 1, dead_roots: vec![] };
    let step = ensure_running(&mut state, Language::Rust, &pulse);
    assert!(matches!(step, StartStep::Boot | StartStep::BootAfter { .. }));
    assert_eq!(state.crash_count, 1);
    assert!(!state.is_ready());
    assert!(backoff_delay(1) <= backoff_delay(2));
    for _ in 0..10 {
        record_first_boot(&mut state, slot("/a", 0), true);
        if let StartStep::Refuse(message) = ensure_running(&mut state, Language::Rust, &pulse) {
            assert!(message.contains("rust"));
            return;
        }
    }
    panic!("a server that keeps crashing is given up");
}

#[test]
fn picking_a_session_takes_the_most_recent() {
    let mut state = LanguageState::new();
    record_first_boot(&mut state, slot("/a", 5), false);
    assert!(add_session(&mut state, Language::Go, slot("/b", 8)).is_ok());
    assert_eq!(pick_session(&mut state, 10), Some("/b".to_string()));
    let status = slot_status(Language::Go, &state, 2, 10);
    assert_eq!(status.status, "ready");
    assert_eq!(status.total_folders, 2);
}

#[test]
fn oldest_language_is_evicted_at_the_limit() {
    let roots = vec![root(Language::Go, "/g"), root(Language::Rust, "/r"), root(Language::Cpp, "/c")];
    let mut mux = LspMultiplexer::new("/", roots);
    let mut running = LanguageState::new();
    record_first_boot(&mut running, slot("/g", 0), true);
    let idle = LanguageState::new();
    let looks = vec![(Language::Go, Some(&running)), (Language::Rust, Some(&running)), (Language::Cpp, Some(&idle))];
    mux.touch_language(Language::Rust, 2);
    mux.touch_language(Language::Go, 3);
    mux.touch_language(Language::Rust, 9);
    assert_eq!(mux.active_languages(&looks), vec![Language::Go, Language::Rust]);
    assert_eq!(mux.evict_global_lru(&looks, Language::Cpp, 10), None);
    mux.set_max_language_servers(3);
    assert_eq!(mux.evict_global_lru(&looks, Language::Cpp, 10), None);
    mux.set_max_language_servers(2);
    assert_eq!(mux.evict_global_lru(&looks, Language::Cpp, 10), Some(Language::Go));
    mux.forget_language(Language::Go);
    assert_eq!(mux.evict_global_lru(&looks, Language::Cpp, 10), Some(Language::Rust));
    assert_eq!(mux.evict_global_lru(&vec![(Language::Go, None), (Language::Rust, None)], Language::Cpp, 10), None);
}

#[test]
fn probing_ends_with_an_answer_or_five_tries() {
    assert!(probe_again(0, None));
    assert!(probe_again(3, Some(&JsonValue::Null)));
    assert!(!probe_again(4, None));
    assert!(!probe_again(0, Some(&JsonValue::Array(vec![]))));
}

// ── Registry ────────────────────────────────────────────────────────────────

#[test]
fn registry_has_entry_for_all_languages() {
    assert!(get_entry(Language::Rust).is_some());
    assert!(get_entry(Language::TypeScript).is_some());
    assert!(get_entry(Language::JavaScript).is_some());
    assert!(get_entry(Language::Go).is_some());
    assert!(get_entry(Language::Cpp).is_some());
}

#[test]
fn platform_detection_returns_valid_tuple() {
    for os in ["macos", "linux", "windows"] {
        for machine in ["aarch64", "x86_64", "riscv64"] {
            let (platform, arch) = detect_platform(os, machine);
            assert!(
                ["apple-darwin", "unknown-linux-gnu", "unknown"].contains(&platform),
                "unexpected platform: {}",
                platform
            );
            assert!(["aarch64", "x86_64", "unknown"].contains(&arch), "unexpected arch: {}", arch);
        }
    }
}

#[test]
fn download_url_resolves_for_rust_analyzer() {
    let entry = get_entry(Language::Rust).unwrap();
    let url = resolve_download_url(&entry, "unknown-linux-gnu", "x86_64").unwrap();
    assert!(url.starts_with("https://github.com/rust-lang/rust-analyzer/releases/"));
    assert!(url.contains("rust-analyzer-"));
    assert!(url.contains(".gz"), "URL should contain .gz: {}", url);
}

#[test]
fn download_url_none_for_npm_packages() {
    let entry = get_entry(Language::TypeScript).unwrap();
    assert!(resolve_download_url(&entry, "unknown-linux-gnu", "x86_64").is_none());
}

#[test]
fn typescript_and_javascript_share_entry() {
    let ts = get_entry(Language::TypeScript).unwrap();
    let js = get_entry(Language::JavaScript).unwrap();
    assert_eq!(ts.binary_name, js.binary_name);
    assert_eq!(ts.binary_name, "vtsls");
}

#[test]
fn typescript_entries_have_vtsls_preferred() {
    let entries = get_entries(Language::TypeScript);
    assert_eq!(entries.len(), 2);
    assert_eq!(entries[0].binary_name, "vtsls");
    assert_eq!(entries[1].binary_name, "typescript-language-server");
}

#[test]
fn resolve_server_returns_none_when_nothing_installed() {
    assert!(resolve_server(Language::TypeScript, &vec![None, None]).is_none());
    let (entry, path) = resolve_server(Language::TypeScript, &vec![None, Some("/bin/tls".to_string())]).unwrap();
    assert_eq!(path, "/bin/tls");
    assert!(entry.binary_name == "vtsls" || entry.binary_name == "typescript-language-server");
}

#[test]
fn servers_dir_is_under_home() {
    let dir = servers_dir(Some("/home/me"));
    assert!(dir.starts_with("/home/me"));
    assert!(dir.ends_with("servers"));
    assert_eq!(dir, "/home/me/.krait/servers");
}

#[test]
fn servers_dir_creates_if_missing() {
    assert!(servers_dir(None).ends_with("servers"));
    assert_eq!(servers_dir(None), "/tmp/.krait/servers");
}

#[test]
fn find_managed_returns_none_for_missing() {
    let places = managed_candidates("/s", None, "definitely-not-a-real-binary-xyz");
    assert_eq!(places[0], "/s/definitely-not-a-real-binary-xyz");
    let missing = vec![false, false, false];
    assert!(find_managed("/s", None, "definitely-not-a-real-binary-xyz", &missing).is_none());
    let npm = find_managed("/s", Some("/go"), "vtsls", &vec![false, true, false, true]);
    assert_eq!(npm, Some("/s/npm/node_modules/.bin/vtsls".to_string()));
    assert!(find_server(None, None).is_none());
    assert_eq!(find_server(None, Some("/s/x".to_string())), Some("/s/x".to_string()));
}

#[test]
fn archives_are_of_their_kind() {
    for lang in Language::all() {
        for entry in get_entries(lang) {
            if let InstallMethod::GithubRelease { asset_pattern, archive, .. } = entry.install_method {
                match archive {
                    ArchiveType::Gzip => assert!(asset_pattern.ends_with(".gz")),
                    ArchiveType::Zip => assert!(asset_pattern.ends_with(".zip")),
                }
            }
        }
    }
}

#[test]
fn rust_entry_has_github_release_method() {
    let entry = get_entry(Language::Rust).unwrap();
    assert!(matches!(entry.install_method, InstallMethod::GithubRelease { .. }));
}

#[test]
fn vtsls_entry_has_npm_method() {
    let entry = get_entry(Language::TypeScript).unwrap();
    assert!(matches!(entry.install_method, InstallMethod::Npm { .. }));
    if let InstallMethod::Npm { package, .. } = entry.install_method {
        assert_eq!(package, "@vtsls/language-server");
    }
}

#[test]
fn go_entry_has_go_install_method() {
    let entry = get_entry(Language::Go).unwrap();
    assert!(matches!(entry.install_method, InstallMethod::GoInstall { .. }));
}

#[test]
fn installing_runs_the_package_manager() {
    let entry = get_entry(Language::TypeScript).unwrap();
    match plan_install(&entry, "/s", "unknown-linux-gnu", "x86_64") {
        InstallPlan::Run { needs, program, args, dir, target } => {
            assert_eq!((needs, program), ("node", "npm"));
            assert_eq!(args[..4], ["install", "--prefix", "/s/npm", "@vtsls/language-server"]);
            assert_eq!(dir, "/s/npm");
            assert_eq!(target, "/s/npm/node_modules/.bin/vtsls");
        }
        InstallPlan::Download { .. } => panic!("a package"),
    }
    let rust = get_entry(Language::Rust).unwrap();
    match plan_install(&rust, "/s", "unknown-linux-gnu", "x86_64") {
        InstallPlan::Download { temp, unpacked, target, .. } => {
            assert_eq!(temp, "/s/.rust-analyzer.tmp");
            assert_eq!(unpacked, "/s/.rust-analyzer");
            assert_eq!(target, "/s/rust-analyzer");
        }
        InstallPlan::Run { .. } => panic!("a download"),
    }
    assert!(missing_runtime(&entry, "node").starts_with("Node.js is required for vtsls but not found in PATH."));
    assert!(install_failed(&entry, "").starts_with("npm install failed for @vtsls/language-server."));
    assert_eq!(not_installed(&entry, "npm", "/x"), "vtsls not found after npm install at /x");
}

// ── Router ──────────────────────────────────────────────────────────────────

fn sym(path: &str, line: u32, kind: &str) -> SymbolMatch {
    SymbolMatch { path: path.to_string(), line, kind: kind.to_string(), preview: String::new(), body: None }
}

fn refm(path: &str, line: u32, is_def: bool) -> ReferenceMatch {
    ReferenceMatch {
        path: path.to_string(),
        line,
        preview: String::new(),
        is_definition: is_def,
        containing_symbol: None,
    }
}

#[test]
fn merge_symbols_deduplicates() {
    let r1 = vec![sym("src/a.rs", 10, "function")];
    let r2 = vec![sym("src/a.rs", 10, "function"), sym("src/b.ts", 5, "class")];
    let merged = merge_symbol_results(vec![r1, r2]);
    assert_eq!(merged.len(), 2);
    assert_eq!(merged[0].path, "src/a.rs");
    assert_eq!(merged[1].path, "src/b.ts");
}

#[test]
fn merge_symbols_sorted_by_path_line() {
    let merged = merge_symbol_results(vec![
        vec![sym("src/z.rs", 1, "function")],
        vec![sym("src/a.rs", 1, "function")],
    ]);
    assert_eq!(merged[0].path, "src/a.rs");
    assert_eq!(merged[1].path, "src/z.rs");
}

#[test]
fn merge_refs_deduplicates() {
    let r1 = vec![refm("src/a.rs", 10, true)];
    let r2 = vec![refm("src/a.rs", 10, true), refm("src/b.rs", 20, false)];
    assert_eq!(merge_reference_results(vec![r1, r2]).len(), 2);
}

#[test]
fn merge_refs_definition_first() {
    let merged = merge_reference_results(vec![vec![refm("src/b.rs", 20, false)], vec![refm("src/a.rs", 10, true)]]);
    assert!(merged[0].is_definition);
    assert_eq!(merged[0].path, "src/a.rs");
}

#[test]
fn merge_empty_inputs() {
    assert!(merge_symbol_results(vec![]).is_empty());
    assert!(merge_reference_results(vec![]).is_empty());
}

// ── Symbols ─────────────────────────────────────────────────────────────────

#[test]
fn symbols_parse_empty_response() {
    assert!(parse_symbol_locations(&JsonValue::Null).is_empty());
}

#[test]
fn parse_flat_symbols() {
    let response = json(
        r#"[
            {
                "name": "greet",
                "kind": 12,
                "range": {"start": { "line": 0, "character": 0 }, "end": { "line": 3, "character": 1 }},
                "selectionRange": {"start": { "line": 0, "character": 3 }, "end": { "line": 0, "character": 8 }}
            },
            {
                "name": "Config",
                "kind": 23,
                "range": {"start": { "line": 5, "character": 0 }, "end": { "line": 10, "character": 1 }},
                "selectionRange": {"start": { "line": 5, "character": 11 }, "end": { "line": 5, "character": 17 }}
            }
        ]"#,
    );
    let symbols = parse_symbol_locations(&response);
    assert_eq!(symbols.len(), 2);
    assert_eq!(symbols[0].name, "greet");
    assert_eq!(symbols[0].kind, "function");
    assert_eq!(symbols[0].start_line, 0);
    assert_eq!(symbols[0].end_line, 3);
    assert_eq!(symbols[1].name, "Config");
    assert_eq!(symbols[1].kind, "struct");
}

fn nested() -> JsonValue {
    json(
        r#"[
            {
                "name": "Config",
                "kind": 5,
                "range": {"start": { "line": 0, "character": 0 }, "end": { "line": 20, "character": 1 }},
                "selectionRange": {"start": { "line": 0, "character": 6 }, "end": { "line": 0, "character": 12 }},
                "children": [
                    {
                        "name": "new",
                        "kind": 6,
                        "range": {"start": { "line": 5, "character": 2 }, "end": { "line": 10, "character": 3 }},
                        "selectionRange": {"start": { "line": 5, "character": 4 }, "end": { "line": 5, "character": 7 }}
                    },
                    {
                        "name": "validate",
                        "kind": 6,
                        "range": {"start": { "line": 12, "character": 2 }, "end": { "line": 18, "character": 3 }},
                        "selectionRange": {"start": { "line": 12, "character": 4 }, "end": { "line": 12, "character": 12 }}
                    }
                ]
            }
        ]"#,
    )
}

#[test]
fn symbols_parse_nested_symbols() {
    let symbols = parse_symbol_locations(&nested());
    assert_eq!(symbols.len(), 1);
    assert_eq!(symbols[0].name, "Config");
    assert_eq!(symbols[0].children.len(), 2);
    assert_eq!(symbols[0].children[0].name, "new");
    assert_eq!(symbols[0].children[0].start_line, 5);
    assert_eq!(symbols[0].children[0].end_line, 10);
    assert_eq!(symbols[0].children[1].name, "validate");
}

#[test]
fn parse_symbol_with_location_fallback() {
    let response = json(
        r#"[
            {
                "name": "test",
                "kind": 12,
                "location": {
                    "uri": "file:///tmp/test.rs",
                    "range": {"start": { "line": 3, "character": 0 }, "end": { "line": 7, "character": 1 }}
                }
            }
        ]"#,
    );
    let symbols = parse_symbol_locations(&response);
    assert_eq!(symbols.len(), 1);
    assert_eq!(symbols[0].start_line, 3);
    assert_eq!(symbols[0].end_line, 7);
}

#[test]
fn members_are_resolved_by_dotted_names() {
    let found = resolve_symbol_range("Config.new", "a.ts", None, &nested()).ok().unwrap();
    assert_eq!((found.name.as_str(), found.start_line), ("new", 5));
    assert_eq!(
        resolve_symbol_range("missing", "a.ts", None, &nested()).err().unwrap(),
        "symbol 'missing' not found in document symbols"
    );
}

// ── Transport ───────────────────────────────────────────────────────────────

#[test]
fn frame_encode_format() {
    let payload = json(r#"{"jsonrpc": "2.0", "id": 1, "method": "test"}"#);
    let framed = String::from_utf8(frame_message(&payload)).unwrap();
    assert!(framed.starts_with("Content-Length: "));
    assert!(framed.contains("\r\n\r\n"));
    let parts: Vec<&str> = framed.splitn(2, "\r\n\r\n").collect();
    let declared_len: usize = parts[0].strip_prefix("Content-Length: ").unwrap().parse().unwrap();
    assert_eq!(declared_len, parts[1].len());
    let read: serde_json::Value = serde_json::from_str(parts[1]).unwrap();
    assert_eq!(convert(&read), payload);
}

#[test]
fn classify_response() {
    let msg = json(r#"{"jsonrpc": "2.0", "id": 1, "result": {"capabilities": {}}}"#);
    assert!(matches!(classify_message(&msg).ok().unwrap(), JsonRpcMessage::Response { id: 1, .. }));
}

#[test]
fn classify_error_response() {
    let msg = json(r#"{"jsonrpc": "2.0", "id": 2, "error": {"code": -32600, "message": "bad"}}"#);
    assert!(matches!(
        classify_message(&msg).ok().unwrap(),
        JsonRpcMessage::Response { id: 2, error: Some(_), .. }
    ));
}

#[test]
fn classify_notification() {
    let msg = json(r#"{"jsonrpc": "2.0", "method": "textDocument/publishDiagnostics", "params": {}}"#);
    match classify_message(&msg).ok().unwrap() {
        JsonRpcMessage::Notification { method, .. } => assert_eq!(method, "textDocument/publishDiagnostics"),
        _ => panic!("a notification"),
    }
}

#[test]
fn classify_server_request() {
    let msg = json(r#"{"jsonrpc": "2.0", "id": 5, "method": "window/workDoneProgress/create", "params": {}}"#);
    match classify_message(&msg).ok().unwrap() {
        JsonRpcMessage::ServerRequest { method, .. } => assert_eq!(method, "window/workDoneProgress/create"),
        _ => panic!("a request"),
    }
}

#[test]
fn request_ids_increment() {
    let mut ids = RequestIds::new();
    assert_eq!(ids.take(), 1);
    assert_eq!(ids.take(), 2);
    assert_eq!(ids.take(), 3);
}

#[test]
fn frame_message_content_length_matches_body() {
    let payload = json(r#"{"jsonrpc": "2.0", "method": "textDocument/didOpen", "params": {}}"#);
    let text = String::from_utf8(frame_message(&payload)).unwrap();
    let (header, body) = text.split_once("\r\n\r\n").unwrap();
    let declared: usize = header.strip_prefix("Content-Length: ").unwrap().parse().unwrap();
    assert_eq!(declared, body.len());
    assert!(!body.is_empty());
}

#[test]
fn classify_unrecognized_message_returns_error() {
    let msg = json(r#"{"jsonrpc": "2.0"}"#);
    assert!(classify_message(&msg).is_err(), "message with no method or id should error");
}

#[test]
fn header_lines_tell_the_length() {
    let mut reader = HeaderReader::new();
    assert!(matches!(reader.on_line(Some("Content-Length: 12\r\n")), HeaderStep::More));
    assert!(matches!(reader.on_line(Some("Content-Type: x\r\n")), HeaderStep::More));
    assert!(matches!(reader.on_line(Some("\r\n")), HeaderStep::Body(12)));
    assert!(matches!(HeaderReader::new().on_line(Some("\r\n")), HeaderStep::Failed(_)));
    assert!(matches!(HeaderReader::new().on_line(Some("Content-Length: x")), HeaderStep::Failed(_)));
    assert!(matches!(HeaderReader::new().on_line(None), HeaderStep::Failed(_)));
    assert_eq!(parse_number("0012"), Some(12));
    assert_eq!(parse_number("-1"), None);
}
