use krait::cli::OutputFormat;
use krait::commands::find::{ReferenceMatch, SymbolMatch};
use krait::commands::list::SymbolEntry;
use krait::commands::search::{SearchMatch, SearchOutput};
use krait::config::ConfigSource;
use krait::daemon::ignored::filter_src_only;
use krait::daemon::quest::{Goal, Quest, QuestStep, Reply};
use krait::daemon::server::{
    combine_references, enrich_with_symbols, files_to_outline, filter_by_path, implementations_response,
    list_symbols_response, on_reference_results, populate_bodies, read_file_response, references_response,
    symbols_response, FindStep, RefStep, SymbolFilter,
};
use krait::daemon::status::{
    build_status_response, directory_response, handle_server_status, init_response, language_extensions,
    languages_to_index, restart_language, restart_response, BuildFacts, DaemonFacts,
};
use krait::detect::language::Language;
use krait::json::JsonValue;
use krait::lsp::pool::{pending_status, Readiness};
use krait::lsp::symbols::search_name;
use krait::output::compact::{format as compact, format_clean, format_duration};
use krait::output::format_response;
use krait::output::human::format as human;
use krait::output::json::format as json_format;
use krait::output::search::format_search;
use krait::protocol::{decode_frame, encode_frame, FrameError, Response};
use krait::serial::{from_json_bytes, to_json_text, to_pretty_text};

fn convert(v: &serde_json::Value) -> JsonValue {
    match v {
        serde_json::Value::Null => JsonValue::Null,
        serde_json::Value::Bool(b) => JsonValue::Bool(*b),
        serde_json::Value::Number(n) => {
            if let Some(u) = n.as_u64() {
                JsonValue::UInt(u)
            } else if let Some(i) = n.as_i64() {
                JsonValue::NegInt(i)
            } else {
                JsonValue::Float(n.to_string())
            }
        }
        serde_json::Value::String(s) => JsonValue::String(s.clone()),
        serde_json::Value::Array(a) => JsonValue::Array(a.iter().map(convert).collect()),
        serde_json::Value::Object(o) => {
            JsonValue::Object(o.iter().map(|(k, x)| (k.clone(), convert(x))).collect())
        }
    }
}

fn json(text: &str) -> JsonValue {
    convert(&serde_json::from_str(text).unwrap())
}

// ── Compact output ──────────────────────────────────────────────────────────

#[test]
fn compact_status_output() {
    let resp = Response::ok(json(r#"{"daemon": {"pid": 12345, "uptime_secs": 300}}"#));
    assert_eq!(compact(&resp), "daemon: pid=12345 uptime=5m");
}

#[test]
fn compact_error_output() {
    let resp = Response::err_with_advice("lsp_not_found", "LSP not detected", "Install it");
    let out = compact(&resp);
    assert!(out.contains("error: LSP not detected"));
    assert!(out.contains("advice: Install it"));
}

#[test]
fn compact_symbol_results() {
    let resp = Response::ok(json(
        r#"[
            {"path": "src/lib.rs", "line": 5, "kind": "function", "preview": "fn greet(name: &str) -> String"},
            {"path": "src/lib.rs", "line": 15, "kind": "struct", "preview": "struct Config"}
        ]"#,
    ));
    let out = compact(&resp);
    assert!(out.contains("src/lib.rs:5 function fn greet"));
    assert!(out.contains("src/lib.rs:15 struct struct Config"));
}

#[test]
fn compact_reference_results() {
    let resp = Response::ok(json(
        r#"[
            {"path": "src/lib.rs", "line": 5, "preview": "pub fn greet()", "is_definition": true},
            {"path": "src/main.rs", "line": 8, "preview": "let msg = greet(\"world\");", "is_definition": false}
        ]"#,
    ));
    let out = compact(&resp);
    assert!(out.contains("[definition]"));
    assert!(out.contains("src/main.rs:8"));
}

#[test]
fn compact_empty_results() {
    assert_eq!(compact(&Response::ok(json("[]"))), "no results");
}

#[test]
fn compact_file_content_output() {
    let resp = Response::ok(json(
        r#"{
            "path": "src/main.rs",
            "content": "   1\tfn main() {\n   2\t    println!(\"hello\");\n   3\t}\n",
            "from": 1,
            "to": 3,
            "total": 3,
            "truncated": false
        }"#,
    ));
    let out = compact(&resp);
    assert!(out.starts_with("src/main.rs (1-3/3)"));
    assert!(out.contains("fn main()"));
}

#[test]
fn compact_file_content_truncated() {
    let resp = Response::ok(json(
        r#"{"path": "big.rs", "content": "   1\tline1\n", "from": 1, "to": 200, "total": 500, "truncated": true}"#,
    ));
    assert!(compact(&resp).contains("[truncated]"));
}

#[test]
fn compact_symbol_content_output() {
    let resp = Response::ok(json(
        r#"{
            "path": "src/lib.rs",
            "symbol": "Config",
            "kind": "struct",
            "content": "   5\tpub struct Config {\n   6\t    name: String,\n   7\t}\n",
            "from": 5,
            "to": 7,
            "truncated": false
        }"#,
    ));
    let out = compact(&resp);
    assert!(out.starts_with("struct Config in src/lib.rs (5-7)"));
    assert!(out.contains("pub struct Config"));
}

#[test]
fn compact_check_with_diagnostics() {
    let resp = Response::ok(json(
        r#"{
            "diagnostics": [
                {"severity": "error", "path": "src/lib.rs", "line": 42, "col": 10, "code": "E0308", "message": "mismatched types"},
                {"severity": "warn", "path": "src/main.rs", "line": 3, "col": 5, "code": "", "message": "unused import"}
            ],
            "total": 2,
            "errors": 1,
            "warnings": 1
        }"#,
    ));
    let out = compact(&resp);
    assert!(out.contains("error src/lib.rs:42:10 E0308 mismatched types"));
    assert!(out.contains("warn  src/main.rs:3:5 unused import"));
    assert!(out.contains("2 diagnostics"));
    assert!(out.contains("1 error"));
    assert!(out.contains("1 warning"));
}

#[test]
fn compact_check_no_diagnostics() {
    let resp = Response::ok(json(r#"{"diagnostics": [], "total": 0, "errors": 0, "warnings": 0}"#));
    assert_eq!(compact(&resp), "No diagnostics");
}

#[test]
fn compact_duration_formatting() {
    assert_eq!(format_duration(30), "30s");
    assert_eq!(format_duration(300), "5m");
    assert_eq!(format_duration(3600), "1h");
    assert_eq!(format_duration(3900), "1h5m");
}

#[test]
fn cleaned_size_is_shown_in_megabytes() {
    assert!(format_clean(5 * 1024 * 1024).contains("5.0 MB"));
}

// ── Human and JSON output ───────────────────────────────────────────────────

#[test]
fn human_status_output() {
    let resp = Response::ok(json(r#"{"daemon": {"pid": 12345, "uptime_secs": 300}}"#));
    let out = human(&resp);
    assert!(out.contains("Daemon Status"));
    assert!(out.contains("PID:    12345"));
    assert!(out.contains("Uptime: 5 minutes"));
}

#[test]
fn human_error_with_advice() {
    let resp = Response::err_with_advice("lsp_not_found", "LSP not detected", "Install it");
    let out = human(&resp);
    assert!(out.contains("Error: LSP not detected"));
    assert!(out.contains("Advice: Install it"));
}

#[test]
fn json_status_output() {
    let resp = Response::ok(json(r#"{"daemon": {"pid": 12345, "uptime_secs": 300}}"#));
    let parsed: serde_json::Value = serde_json::from_str(&json_format(&resp)).unwrap();
    assert_eq!(parsed["daemon"]["pid"], 12345);
}

#[test]
fn json_error_output() {
    let resp = Response::err("not_found", "Symbol not found");
    let parsed: serde_json::Value = serde_json::from_str(&json_format(&resp)).unwrap();
    assert_eq!(parsed["code"], "not_found");
}

#[test]
fn json_texts_are_read_back() {
    let value = json(r#"{"a": [1, -2, 0.5, true, null, "x\ny"], "b": {}}"#);
    let pretty = to_pretty_text(&value);
    assert!(pretty.contains("\n  \"a\": ["));
    assert_eq!(json(&pretty), value);
}

#[test]
fn format_flag_dispatches_correctly() {
    let resp = Response::ok(json(r#"{"daemon": {"pid": 1, "uptime_secs": 0}}"#));
    assert!(format_response(&resp, OutputFormat::Compact).starts_with("daemon:"));
    assert!(format_response(&resp, OutputFormat::Json).starts_with('{'));
    assert!(format_response(&resp, OutputFormat::Human).starts_with("Daemon Status"));
}

#[test]
fn error_response_formatting_all_formats() {
    let resp = Response::err_with_advice("test_err", "Something failed", "Try again");
    let out = format_response(&resp, OutputFormat::Compact);
    assert!(out.contains("error:"));
    assert!(out.contains("advice:"));
    let parsed: serde_json::Value = serde_json::from_str(&format_response(&resp, OutputFormat::Json)).unwrap();
    assert_eq!(parsed["code"], "test_err");
    let out = format_response(&resp, OutputFormat::Human);
    assert!(out.contains("Error:"));
    assert!(out.contains("Advice:"));
}

#[test]
fn search_output_lists_matches() {
    let output = SearchOutput {
        matches: vec![SearchMatch {
            path: "a.rs".to_string(),
            line: 3,
            column: 1,
            preview: "fn a() {}".to_string(),
            context_before: vec![],
            context_after: vec![],
        }],
        total_matches: 1,
        files_searched: 4,
        files_with_matches: 1,
        truncated: false,
    };
    let out = format_search(&output, false, false);
    assert!(out.contains("a.rs:3"));
    assert!(out.contains("fn a() {}"));
    assert_eq!(format_search(&output, false, true), "a.rs\n1 file");
}

// ── Frames ──────────────────────────────────────────────────────────────────

#[test]
fn frame_encode_decode() {
    let payload = b"{\"FindSymbol\":{\"name\":\"Foo\"}}".to_vec();
    let frame = encode_frame(&payload).ok().unwrap();
    let (decoded, consumed) = decode_frame(&frame).ok().unwrap();
    assert_eq!(decoded, payload);
    assert_eq!(consumed, frame.len());
}

#[test]
fn frame_empty_payload() {
    let frame = encode_frame(&b"\"Status\"".to_vec()).ok().unwrap();
    let (decoded, _) = decode_frame(&frame).ok().unwrap();
    assert_eq!(decoded, b"\"Status\"");
    assert_eq!(frame[..4], [0, 0, 0, 8]);
}

#[test]
fn frame_large_payload() {
    let big = "x".repeat(1_000_000).into_bytes();
    let frame = encode_frame(&big).ok().unwrap();
    let (decoded, _) = decode_frame(&frame).ok().unwrap();
    assert_eq!(decoded, big);
}

#[test]
fn frame_rejects_oversized() {
    let huge = "x".repeat(11_000_000).into_bytes();
    let err = encode_frame(&huge).err().unwrap();
    assert!(err.message().contains("exceeds maximum"));
}

#[test]
fn frame_decode_incomplete_header() {
    assert!(decode_frame(&[0, 1]).is_err());
}

#[test]
fn frame_decode_incomplete_payload() {
    let frame = encode_frame(&b"\"Status\"".to_vec()).ok().unwrap();
    let truncated = &frame[..frame.len() - 1];
    assert!(decode_frame(truncated).is_err());
}

#[test]
fn frame_faults_are_told_apart() {
    let oversized = [1, 64, 0, 0, 1];
    assert!(matches!(decode_frame(&oversized), Err(FrameError::Oversized { .. })));
    assert!(matches!(decode_frame(&[0, 0, 0, 9, 1]), Err(FrameError::Incomplete { .. })));
}

// ── Daemon ──────────────────────────────────────────────────────────────────

fn sym(path: &str, line: u32) -> SymbolMatch {
    SymbolMatch {
        path: path.to_string(),
        line,
        kind: "function".to_string(),
        preview: String::new(),
        body: None,
    }
}

fn refm(path: &str, line: u32, is_definition: bool) -> ReferenceMatch {
    ReferenceMatch {
        path: path.to_string(),
        line,
        preview: String::new(),
        is_definition,
        containing_symbol: None,
    }
}

fn filter(path: Option<&str>, rules: &[&str]) -> SymbolFilter {
    SymbolFilter {
        path_filter: path.map(|p| p.to_string()),
        src_only: !rules.is_empty(),
        project_root: "/p".to_string(),
        ignore_files: vec![rules.iter().map(|r| r.to_string()).collect()],
    }
}

const READY: Readiness = Readiness { ready: 1, total: 1 };
const STARTING: Readiness = Readiness { ready: 0, total: 2 };

#[test]
fn symbols_of_ignored_files_are_left_out() {
    let rules = vec![vec!["\u{feff}target/".to_string(), "*.gen.rs".to_string(), "!keep.gen.rs".to_string()]];
    let symbols = vec![
        sym("src/a.rs", 1),
        sym("target/debug/b.rs", 2),
        sym("src/c.gen.rs", 3),
        sym("keep.gen.rs", 4),
        sym("/elsewhere/target/x.rs", 5),
        sym("/p/target/y.rs", 6),
        sym("/p//target/z.rs", 7),
        sym("/p/src/b.rs", 8),
    ];
    let kept = filter_src_only(symbols, "/p", &rules);
    let paths: Vec<&str> = kept.iter().map(|s| s.path.as_str()).collect();
    assert_eq!(paths, vec!["src/a.rs", "keep.gen.rs", "/elsewhere/target/x.rs", "/p/src/b.rs"]);
    assert_eq!(filter_src_only(vec![sym("target/a.rs", 1)], "/p", &vec![]).len(), 1);
}

#[test]
fn values_are_read_as_they_are_written() {
    let text = r#"{"a":[null,true,18446744073709551615,-5,0.5],"b":{"c":"x"}}"#;
    let v = from_json_bytes(text.as_bytes()).ok().unwrap();
    assert_eq!(to_json_text(&v), text);
    assert_eq!(v.get("a").unwrap().as_array().unwrap()[3].as_i64(), Some(-5));
    let fault = from_json_bytes(b"{").err().unwrap();
    assert_eq!(fault, serde_json::from_slice::<serde_json::Value>(b"{").unwrap_err().to_string());
}

#[test]
fn find_answers_from_the_index_first() {
    let f = filter(Some("src/"), &["*.gen.rs"]);
    match f.on_cache(Some(vec![sym("src/a.rs", 1), sym("lib/b.rs", 2), sym("src/c.gen.rs", 3)]), &vec![]) {
        FindStep::Show(s) => {
            assert_eq!(s.len(), 1);
            assert_eq!(s[0].path, "src/a.rs");
        }
        _ => panic!("the index has it"),
    }
    assert!(matches!(f.on_cache(None, &vec![Language::Rust]), FindStep::AskServers));
    match f.on_cache(None, &vec![]) {
        FindStep::Reply(r) => assert_eq!(r.error.unwrap().code, "no_language"),
        _ => panic!("nobody to ask"),
    }
}

#[test]
fn find_falls_back_to_the_text() {
    let f = filter(None, &[]);
    assert!(matches!(f.on_results(vec![], &READY, 5), FindStep::SearchText));
    assert!(matches!(f.on_results(vec![], &STARTING, 60), FindStep::SearchText));
    match f.on_results(vec![], &STARTING, 59) {
        FindStep::Reply(r) => {
            let e = r.error.unwrap();
            assert_eq!(e.code, "indexing");
            assert_eq!(e.message, "LSP servers still indexing (0/2 ready, daemon uptime 59s)");
        }
        _ => panic!("still indexing"),
    }
    match f.on_results(vec![vec![sym("b.rs", 1)], vec![sym("a.rs", 1)]], &READY, 5) {
        FindStep::Show(s) => assert_eq!(s[0].path, "a.rs"),
        _ => panic!("found"),
    }
}

#[test]
fn bodies_come_from_the_files() {
    let filled = populate_bodies(
        vec![sym("a.rs", 1), sym("b.rs", 1)],
        &vec![Some("fn a() {\n}\nfn b() {}\n".to_string()), None],
    );
    assert_eq!(filled[0].body, Some("fn a() {\n}".to_string()));
    assert_eq!(filled[1].body, None);
    let data = symbols_response(&filled).data.unwrap();
    let items = data.as_array().unwrap();
    assert_eq!(items[0].get("body").unwrap().as_str(), Some("fn a() {\n}"));
    assert!(items[1].get("body").is_none());
}

#[test]
fn definitions_alone_are_searched_further() {
    assert!(matches!(
        on_reference_results(vec![vec![refm("a.rs", 1, true)]], &STARTING, 5),
        RefStep::SearchText(_)
    ));
    assert!(matches!(
        on_reference_results(vec![vec![refm("a.rs", 1, true), refm("b.rs", 2, false)]], &STARTING, 5),
        RefStep::Show(_)
    ));
    assert!(matches!(on_reference_results(vec![], &STARTING, 5), RefStep::Reply(_)));
    let combined = combine_references(
        vec![refm("a.rs", 1, true)],
        vec![refm("a.rs", 1, false), refm("c.rs", 9, false), refm("c.rs", 9, true)],
    );
    assert_eq!(combined.len(), 2);
    assert!(combined[0].is_definition);
    assert_eq!(combined[1].path, "c.rs");
    assert_eq!(references_response("f", &vec![]).error.unwrap().message, "symbol 'f' not found");
}

#[test]
fn references_are_enriched_with_their_callers() {
    let refs = vec![refm("a.rs", 3, false), refm("a.rs", 9, true), refm("b.rs", 1, false), refm("a.rs", 4, false)];
    assert_eq!(files_to_outline(&refs), vec!["a.rs", "b.rs"]);
    let outline = vec![SymbolEntry {
        name: "caller".to_string(),
        kind: "function".to_string(),
        line: 2,
        end_line: 5,
        children: vec![],
    }];
    let rich = enrich_with_symbols(refs, &vec![("a.rs".to_string(), outline)]);
    assert_eq!(rich[0].containing_symbol.as_ref().unwrap().name, "caller");
    assert!(rich[1].containing_symbol.is_none());
    assert!(rich[2].containing_symbol.is_none());
    let data = references_response("f", &rich).data.unwrap();
    let first = &data.as_array().unwrap()[0];
    assert_eq!(first.get("containing_symbol").unwrap().get("line").unwrap().as_u64(), Some(2));
}

#[test]
fn implementations_are_merged() {
    let r = implementations_response("f", vec![vec![sym("b.rs", 1), sym("a.rs", 2)], vec![sym("a.rs", 2)]]);
    assert_eq!(r.data.unwrap().as_array().unwrap().len(), 2);
    let none = implementations_response("f", vec![]).error.unwrap();
    assert_eq!(none.code, "impl_not_found");
    assert_eq!(none.message, "no implementations found for 'f'");
}

#[test]
fn failures_are_told_by_code() {
    assert_eq!(
        read_file_response(Err("file not found: x".to_string())).error.unwrap().code,
        "file_not_found"
    );
    assert_eq!(read_file_response(Err("binary file: x".to_string())).error.unwrap().code, "binary_file");
    assert_eq!(read_file_response(Err("other".to_string())).error.unwrap().code, "read_failed");
    assert_eq!(
        list_symbols_response(Err("not found".to_string())).error.unwrap().code,
        "file_not_found"
    );
    assert_eq!(
        list_symbols_response(Err("broken".to_string())).error.unwrap().code,
        "list_symbols_failed"
    );
    assert_eq!(search_name("Config.new"), "Config");
    assert_eq!(filter_by_path(vec![sym("a/b.rs", 1), sym("c.rs", 1)], Some("a/")).len(), 1);
}

#[test]
fn servers_are_asked_in_turn() {
    let mut quest = Quest::new(Goal::Edit, "f", vec![Language::Go, Language::Rust]).ok().unwrap();
    assert!(matches!(quest.next_step(), QuestStep::Ask(Language::Go)));
    assert!(quest.on_reply(Reply::Outcome(Err("symbol 'f' not found".to_string()))).is_none());
    assert!(matches!(quest.next_step(), QuestStep::Ask(Language::Rust)));
    assert!(quest.on_reply(Reply::Nothing).is_none());
    assert!(matches!(quest.next_step(), QuestStep::Exhausted));
    assert_eq!(quest.finish(&READY, 100).error.unwrap().code, "symbol_not_found");
    assert_eq!(
        quest.finish(&STARTING, 1).error.unwrap().message,
        "LSP servers still indexing (0/2 ready)"
    );
    assert_eq!(Quest::new(Goal::Hover, "f", vec![]).err().unwrap().error.unwrap().code, "no_language");
}

#[test]
fn first_settling_reply_is_the_answer() {
    let mut quest = Quest::new(Goal::ReadSymbol, "f", vec![Language::Go]).ok().unwrap();
    let answer = quest.on_reply(Reply::Outcome(Err("symbol 'f' not found".to_string()))).unwrap();
    assert_eq!(answer.error.unwrap().code, "read_symbol_failed");
    let mut rename = Quest::new(Goal::Rename, "f", vec![Language::Go]).ok().unwrap();
    let answer = rename.on_reply(Reply::Outcome(Err("server crashed".to_string()))).unwrap();
    assert_eq!(answer.error.unwrap().code, "rename_failed");
    let mut fix = Quest::new(Goal::Fix, "", vec![Language::Go]).ok().unwrap();
    assert!(fix.on_reply(Reply::Nothing).is_none());
    assert_eq!(fix.finish(&READY, 0).error.unwrap().code, "lsp_not_available");
}

fn facts() -> DaemonFacts {
    DaemonFacts {
        pid: 7,
        uptime_secs: 3,
        config_source: ConfigSource::AutoDetected,
        project_root: "/p".to_string(),
        languages: vec![],
        readiness: Readiness { ready: 0, total: 0 },
        statuses: vec![],
        server_available: false,
        workspaces: 0,
        counts: None,
        dirty_files: 2,
        watcher_active: true,
    }
}

#[test]
fn status_tells_of_the_daemon() {
    let data = build_status_response(&facts()).data.unwrap();
    assert_eq!(data.get2("daemon", "pid").unwrap().as_u64(), Some(7));
    assert_eq!(data.get2("daemon", "uptime_secs").unwrap().as_u64(), Some(3));
    assert_eq!(data.get2("project", "root").unwrap().as_str(), Some("/p"));
    assert_eq!(data.get("lsp"), Some(&JsonValue::Null));
    assert!(data.get2("project", "languages").unwrap().as_array().unwrap().is_empty());
    assert_eq!(data.get2("index", "watcher_active"), Some(&JsonValue::Bool(true)));
    assert_eq!(data.get("config").unwrap().as_str(), Some("auto-detected"));
}

#[test]
fn status_tells_of_the_servers() {
    let mut f = facts();
    f.languages = vec![Language::Rust];
    let data = build_status_response(&f).data.unwrap();
    assert_eq!(data.get2("lsp", "status").unwrap().as_str(), Some("not_installed"));
    assert_eq!(data.get2("lsp", "server").unwrap().as_str(), Some("rust-analyzer"));
    f.readiness = Readiness { ready: 1, total: 2 };
    f.statuses = vec![pending_status(Language::Rust, 1)];
    f.workspaces = 2;
    f.counts = Some((5, 1));
    let data = build_status_response(&f).data.unwrap();
    assert_eq!(data.get2("lsp", "status").unwrap().as_str(), Some("pending"));
    assert_eq!(data.get2("lsp", "progress").unwrap().as_str(), Some("1/2"));
    assert_eq!(data.get2("project", "workspaces_discovered").unwrap().as_u64(), Some(5));
    assert_eq!(data.get2("project", "languages").unwrap().as_array().unwrap()[0].as_str(), Some("rust"));
}

#[test]
fn servers_are_listed_and_restarted() {
    let data = handle_server_status(&vec![pending_status(Language::Go, 3)]).data.unwrap();
    assert_eq!(data.get("count").unwrap().as_u64(), Some(1));
    let first = &data.get("servers").unwrap().as_array().unwrap()[0];
    assert_eq!(first.get("server").unwrap().as_str(), Some("gopls"));
    assert_eq!(first.get("total_folders").unwrap().as_u64(), Some(3));
    assert_eq!(restart_language("golang").ok().unwrap(), Language::Go);
    assert_eq!(
        restart_language("cobol").err().unwrap().error.unwrap().message,
        "unknown language: cobol"
    );
    let ok = restart_response("golang", Language::Go, Ok(())).data.unwrap();
    assert_eq!(ok.get("server_name").unwrap().as_str(), Some("gopls"));
    assert_eq!(
        restart_response("go", Language::Go, Err("no".to_string())).error.unwrap().code,
        "restart_failed"
    );
}

#[test]
fn directories_show_files_with_symbols() {
    let entry = SymbolEntry {
        name: "a".to_string(),
        kind: "function".to_string(),
        line: 1,
        end_line: 2,
        children: vec![],
    };
    let data = directory_response(&vec![("a.rs".to_string(), vec![entry]), ("b.rs".to_string(), vec![])]).data.unwrap();
    let files = data.get("files").unwrap().as_array().unwrap();
    assert_eq!(files.len(), 1);
    assert_eq!(files[0].get("file").unwrap().as_str(), Some("a.rs"));
}

#[test]
fn web_languages_share_their_extensions() {
    assert_eq!(
        language_extensions(&vec![Language::JavaScript, Language::Rust, Language::TypeScript]),
        vec!["cjs", "js", "jsx", "mjs", "rs", "ts", "tsx"]
    );
    assert_eq!(
        languages_to_index(&vec![], vec![Language::Go]).ok().unwrap(),
        vec![Language::Go]
    );
    assert!(languages_to_index(&vec![], vec![]).is_err());
}

#[test]
fn unchanged_index_reports_all_symbols() {
    let mut f = BuildFacts {
        db_path: "/p/.krait/index.db".to_string(),
        files_to_index: 0,
        files_cached: 4,
        files_indexed: 0,
        symbols_written: 0,
        symbols_stored: Some(90),
        elapsed_ms: 12,
        batch_size: 8,
        workers: 2,
        lsp_ms: 3,
        commit_ms: 4,
    };
    let data = init_response(&f).data.unwrap();
    assert_eq!(data.get("symbols_total").unwrap().as_u64(), Some(90));
    assert_eq!(data.get("files_total").unwrap().as_u64(), Some(4));
    f.symbols_written = 5;
    let data = init_response(&f).data.unwrap();
    assert_eq!(data.get("symbols_total").unwrap().as_u64(), Some(5));
}
