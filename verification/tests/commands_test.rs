use krait::cli::{Command, FindCommand, ListCommand, ReadCommand};
use krait::client::{command_to_request, search_options};
use krait::commands::check::{handle_check, has_errors};
use krait::commands::edit::{
    ensure_trailing_newline, find_insert_before_line, format_insert, format_replace, handle_edit_insert_after,
    handle_edit_insert_before, handle_edit_replace, LocateStep, LocateVerdict, SymbolLocator,
};
use krait::commands::find::{
    classify_definition, extract_symbol_body, fill_previews, find_innermost_containing, find_name_position,
    first_symbol, on_implementations, on_symbols, parse_reference_results, parse_symbol_results, read_line_preview,
    reference_search, resolve_symbol_location, symbol_kind_name, symbol_search, text_search_find_refs,
    text_search_find_symbol, uri_to_relative_path, ImplStep, NameStep, SymbolMatch,
};
use krait::commands::fix::{edits_to_apply, select_files, FixTally};
use krait::commands::format::handle_format;
use krait::commands::hover::{extract_hover_content, handle_hover};
use krait::commands::list::{format_compact, parse_document_symbols, SymbolEntry};
use krait::commands::read::{format_numbered_lines, handle_read_file, FileRead, ReadStep, SymbolReader};
use krait::commands::rename::handle_rename;
use krait::commands::search::{
    normalize_grep_escapes, run, select_files as select_searched, SearchOptions, SearchOutput, SourceFile,
};
use krait::commands::server::{build_server_list, format_server_list, ServerListEntry};
use krait::commands::workspace_edit::{apply_text_edits, can_apply, count_workspace_edits, edit_files, plan_workspace_edit};
use krait::detect::language::Language;
use krait::json::JsonValue;
use krait::lsp::diagnostics::{DiagSeverity, DiagnosticEntry, DiagnosticStore};
use krait::lsp::symbols::SymbolLocation;
use krait::protocol::Request;

fn convert(v: &serde_json::Value) -> JsonValue {
    match v {
        serde_json::Value::Null => JsonValue::Null,
        serde_json::Value::Bool(b) => JsonValue::Bool(*b),
        serde_json::Value::Number(n) => {
            if let Some(u) = n.as_u64() {
                JsonValue::UInt(u)
            } else if let Some(i) = n.as_i64() {
                JsonValue::NegInt(i)
            } else {
                JsonValue::Float(n.to_string())
            }
        }
        serde_json::Value::String(s) => JsonValue::String(s.clone()),
        serde_json::Value::Array(a) => JsonValue::Array(a.iter().map(convert).collect()),
        serde_json::Value::Object(o) => {
            JsonValue::Object(o.iter().map(|(k, x)| (k.clone(), convert(x))).collect())
        }
    }
}

fn json(text: &str) -> JsonValue {
    convert(&serde_json::from_str(text).unwrap())
}

fn at<'a>(v: &'a JsonValue, key: &str) -> &'a JsonValue {
    v.get(key).unwrap()
}

fn number(v: &JsonValue, key: &str) -> u64 {
    at(v, key).as_u64().unwrap()
}

fn text<'a>(v: &'a JsonValue, key: &str) -> &'a str {
    at(v, key).as_str().unwrap()
}

// ── Requests ────────────────────────────────────────────────────────────────

#[test]
fn command_to_request_list_symbols() {
    let cmd = Command::List(ListCommand::Symbols { path: "src/lib.rs".to_string(), depth: 2 });
    let req = command_to_request(&cmd);
    assert!(matches!(req, Request::ListSymbols { depth: 2, .. }));
}

#[test]
fn command_to_request_read_file() {
    let cmd = Command::Read(ReadCommand::File {
        path: "main.rs".to_string(),
        from: Some(1),
        to: Some(10),
        max_lines: None,
    });
    let req = command_to_request(&cmd);
    assert!(matches!(req, Request::ReadFile { from: Some(1), to: Some(10), .. }));
}

#[test]
fn command_to_request_read_symbol() {
    let cmd = Command::Read(ReadCommand::Symbol {
        name: "Config".into(),
        signature_only: true,
        max_lines: Some(20),
        path: None,
        has_body: false,
    });
    let req = command_to_request(&cmd);
    assert!(matches!(req, Request::ReadSymbol { signature_only: true, max_lines: Some(20), .. }));
}

#[test]
fn command_to_request_find_symbol() {
    let cmd = Command::Find(FindCommand::Symbol {
        name: "MyStruct".into(),
        path: None,
        src_only: false,
        include_body: false,
    });
    let req = command_to_request(&cmd);
    assert!(matches!(req, Request::FindSymbol { name, .. } if name == "MyStruct"));
}

#[test]
fn command_to_request_find_refs() {
    let cmd = Command::Find(FindCommand::Refs { name: "my_func".into(), with_symbol: false });
    let req = command_to_request(&cmd);
    assert!(matches!(req, Request::FindRefs { name, .. } if name == "my_func"));
}

// ── Check ───────────────────────────────────────────────────────────────────

fn entry(severity: DiagSeverity, line: u32, col: u32, code: Option<&str>, message: &str) -> DiagnosticEntry {
    DiagnosticEntry { severity, line, col, code: code.map(|c| c.to_string()), message: message.to_string() }
}

fn make_store() -> DiagnosticStore {
    let mut store = DiagnosticStore::new();
    store.update(
        "/project/src/lib.rs",
        vec![
            entry(DiagSeverity::Warning, 2, 4, None, "unused import"),
            entry(DiagSeverity::Error, 41, 9, Some("E0308"), "mismatched types"),
        ],
    );
    store
}

#[test]
fn check_formats_errors_first() {
    let store = make_store();
    let result = handle_check(None, &store, "/project", false);
    let diags = at(&result, "diagnostics").as_array().unwrap();
    assert_eq!(text(&diags[0], "severity"), "error");
    assert_eq!(text(&diags[1], "severity"), "warn");
}

#[test]
fn check_empty_is_clean() {
    let store = DiagnosticStore::new();
    let result = handle_check(None, &store, "/project", false);
    assert_eq!(number(&result, "total"), 0);
    assert!(at(&result, "diagnostics").as_array().unwrap().is_empty());
}

#[test]
fn check_filters_by_path() {
    let mut store = make_store();
    store.update("/project/src/main.rs", vec![entry(DiagSeverity::Error, 5, 0, None, "other error")]);
    let result = handle_check(Some("src/lib.rs"), &store, "/project", false);
    let diags = at(&result, "diagnostics").as_array().unwrap();
    assert_eq!(diags.len(), 2, "should only return lib.rs diagnostics");
    for d in diags {
        assert_eq!(text(d, "path"), "src/lib.rs");
    }
}

#[test]
fn check_line_is_one_indexed() {
    let store = make_store();
    let result = handle_check(None, &store, "/project", false);
    let diags = at(&result, "diagnostics").as_array().unwrap();
    let error = diags.iter().find(|d| text(d, "severity") == "error").unwrap();
    assert_eq!(number(error, "line"), 42);
}

#[test]
fn check_counts_errors_and_warnings() {
    let store = make_store();
    let result = handle_check(None, &store, "/project", false);
    assert_eq!(number(&result, "errors"), 1);
    assert_eq!(number(&result, "warnings"), 1);
    assert_eq!(number(&result, "total"), 2);
    assert!(has_errors(Some(&result)));
    assert!(!has_errors(None));
}

#[test]
fn check_errors_only_suppresses_warnings() {
    let store = make_store();
    let result = handle_check(None, &store, "/project", true);
    let diags = at(&result, "diagnostics").as_array().unwrap();
    assert_eq!(diags.len(), 1);
    assert_eq!(text(&diags[0], "severity"), "error");
    assert_eq!(number(&result, "total"), 1);
}

#[test]
fn check_reports_files_under_the_path_first_given() {
    let mut store = DiagnosticStore::new();
    store.update("/project/src/lib.rs", vec![entry(DiagSeverity::Error, 0, 0, None, "a")]);
    store.update("/project/src//lib.rs", vec![entry(DiagSeverity::Error, 0, 0, None, "b")]);
    let result = handle_check(None, &store, "/project", false);
    let diags = at(&result, "diagnostics").as_array().unwrap();
    assert_eq!(diags.len(), 1);
    assert_eq!(text(&diags[0], "path"), "src/lib.rs");
    assert_eq!(text(&diags[0], "message"), "b");
}

#[test]
fn check_errors_only_clean_project_is_empty() {
    let mut store = DiagnosticStore::new();
    store.update("/project/src/lib.rs", vec![entry(DiagSeverity::Warning, 0, 0, None, "unused import")]);
    let result = handle_check(None, &store, "/project", true);
    assert_eq!(number(&result, "total"), 0);
    assert!(at(&result, "diagnostics").as_array().unwrap().is_empty());
}

#[test]
fn check_does_not_depend_on_the_order_of_files() {
    let mut a = DiagnosticStore::new();
    let mut b = DiagnosticStore::new();
    let files = ["/project/a.rs", "/project/b.rs", "/project/c.rs"];
    for f in files.iter() {
        a.update(f, vec![entry(DiagSeverity::Error, 1, 1, None, "x")]);
    }
    for f in files.iter().rev() {
        b.update(f, vec![entry(DiagSeverity::Error, 1, 1, None, "x")]);
    }
    assert_eq!(handle_check(None, &a, "/project", false), handle_check(None, &b, "/project", false));
}

// ── Edit ────────────────────────────────────────────────────────────────────

#[test]
fn find_insert_before_skips_attributes() {
    let lines = vec![
        "fn unrelated() {}",
        "",
        "#[derive(Debug)]",
        "#[allow(dead_code)]",
        "struct Foo {",
        "}",
    ];
    assert_eq!(find_insert_before_line(&lines, 4), 2);
}

#[test]
fn find_insert_before_skips_doc_comments() {
    let lines = vec!["fn other() {}", "", "/// My doc", "fn target() {}"];
    assert_eq!(find_insert_before_line(&lines, 3), 2);
}

#[test]
fn find_insert_before_skips_a_whole_comment() {
    let lines = ["/**", " * A", " *", " * B", " */", "function f() {}"];
    assert_eq!(find_insert_before_line(&lines, 5), 0);
}

#[test]
fn find_insert_before_no_attrs_returns_symbol_start() {
    let lines = vec!["fn a() {}", "", "fn b() {}"];
    assert_eq!(find_insert_before_line(&lines, 2), 2);
}

#[test]
fn find_insert_before_at_start_of_file() {
    let lines = vec!["fn only() {}"];
    assert_eq!(find_insert_before_line(&lines, 0), 0);
}

#[test]
fn ensure_trailing_newline_adds_newline() {
    assert_eq!(ensure_trailing_newline("hello"), "hello\n");
}

#[test]
fn ensure_trailing_newline_no_double_newline() {
    assert_eq!(ensure_trailing_newline("hello\n"), "hello\n");
}

#[test]
fn format_replace_output() {
    let data = json(
        r#"{"path": "src/lib.rs", "symbol": "greet", "from": 5, "to": 15, "lines_before": 11, "lines_after": 8}"#,
    );
    let out = format_replace(&data);
    assert!(out.contains("replaced"));
    assert!(out.contains("src/lib.rs:5-15"));
    assert!(out.contains("greet"));
    assert!(out.contains("11 lines → 8 lines"));
}

#[test]
fn format_insert_after_output() {
    let data = json(r#"{"path": "src/lib.rs", "symbol": "greet", "inserted_at": 16, "lines_added": 5}"#);
    let out = format_insert(&data, "after");
    assert!(out.contains("inserted after"));
    assert!(out.contains("src/lib.rs:16"));
    assert!(out.contains("5 lines added"));
}

fn location(name: &str, start_line: u32, end_line: u32) -> SymbolLocation {
    SymbolLocation {
        name: name.to_string(),
        kind: "function".to_string(),
        start_line,
        end_line,
        children: vec![],
    }
}

#[test]
fn replacing_a_symbol_keeps_the_other_lines() {
    let content = "fn a() {\n}\n\nfn b() {}\n";
    let edit = handle_edit_replace("a", "fn a() -> u8 {\n    1\n}", content, &location("a", 0, 1), "/p/x.rs", "/p").ok().unwrap();
    assert_eq!(edit.content, "fn a() -> u8 {\n    1\n}\n\nfn b() {}\n");
    assert_eq!(text(&edit.response, "path"), "x.rs");
    assert_eq!(number(&edit.response, "from"), 1);
    assert_eq!(number(&edit.response, "to"), 2);
    assert_eq!(number(&edit.response, "lines_before"), 2);
    assert_eq!(number(&edit.response, "lines_after"), 3);
}

#[test]
fn replacing_past_the_end_is_refused() {
    let r = handle_edit_replace("a", "x", "one\n", &location("a", 7, 8), "/p/x.rs", "/p");
    assert_eq!(r.err().unwrap(), "symbol range out of bounds in /p/x.rs");
}

#[test]
fn inserting_after_sets_a_blank_line_between() {
    let edit = handle_edit_insert_after("a", "fn c() {}", "fn a() {}\nfn b() {}\n", &location("a", 0, 0), "/p/x.rs", "/p");
    assert_eq!(edit.content, "fn a() {}\n\nfn c() {}\nfn b() {}\n");
    assert_eq!(number(&edit.response, "inserted_at"), 2);
    assert_eq!(number(&edit.response, "lines_added"), 1);
}

#[test]
fn inserting_before_goes_above_annotations() {
    let edit = handle_edit_insert_before(
        "b",
        "fn c() {}",
        "fn a() {}\n\n/// Doc\nfn b() {}\n",
        &location("b", 3, 3),
        "/p/x.rs",
        "/p",
    );
    assert_eq!(text(&edit.response, "operation"), "before");
    assert!(edit.content.starts_with("fn a() {}\n\nfn c() {}\n"));
    assert!(edit.content.ends_with("/// Doc\nfn b() {}\n"));
}

fn symbol(path: &str, line: u32, kind: &str) -> SymbolMatch {
    SymbolMatch { path: path.to_string(), line, kind: kind.to_string(), preview: String::new(), body: None }
}

#[test]
fn locating_goes_on_after_a_failure() {
    let mut locator = SymbolLocator::new("greet", &vec![symbol("a.rs", 1, "function"), symbol("b.rs", 0, "function")]);
    match locator.next_step() {
        LocateStep::Try { path, hint_line } => {
            assert_eq!(path, "a.rs");
            assert_eq!(hint_line, Some(0));
        }
        LocateStep::Failed(m) => panic!("{}", m),
    }
    assert!(matches!(locator.on_resolved(Err("not here".to_string())), LocateVerdict::Next));
    match locator.next_step() {
        LocateStep::Try { path, hint_line } => {
            assert_eq!(path, "b.rs");
            assert_eq!(hint_line, None);
        }
        LocateStep::Failed(m) => panic!("{}", m),
    }
    match locator.on_resolved(Ok(location("greet", 3, 4))) {
        LocateVerdict::Located(s) => assert_eq!(s.start_line, 3),
        _ => panic!("should be located"),
    }
}

#[test]
fn locating_a_member_resolves_the_whole_name() {
    let mut locator = SymbolLocator::new("Config.new", &vec![symbol("a.rs", 1, "struct")]);
    assert!(matches!(locator.on_resolved(Ok(location("Config", 0, 9))), LocateVerdict::ResolveMember));
}

#[test]
fn locating_without_candidates_fails() {
    let locator = SymbolLocator::new("greet", &vec![]);
    match locator.next_step() {
        LocateStep::Failed(m) => assert_eq!(m, "symbol 'greet' not found"),
        LocateStep::Try { .. } => panic!("nothing to try"),
    }
}

// ── Find ────────────────────────────────────────────────────────────────────

#[test]
fn symbol_kind_function() {
    assert_eq!(symbol_kind_name(12), "function");
}

#[test]
fn symbol_kind_struct() {
    assert_eq!(symbol_kind_name(23), "struct");
}

#[test]
fn uri_to_relative() {
    assert_eq!(
        uri_to_relative_path("file:///home/user/project/src/lib.rs", "/home/user/project"),
        "src/lib.rs"
    );
}

#[test]
fn uri_to_relative_outside_project() {
    assert_eq!(
        uri_to_relative_path("file:///other/path/lib.rs", "/home/user/project"),
        "/other/path/lib.rs"
    );
}

#[test]
fn parse_empty_symbol_results() {
    assert!(parse_symbol_results(&JsonValue::Null, "test", "/tmp").is_empty());
}

#[test]
fn parse_empty_reference_results() {
    assert!(parse_reference_results(&JsonValue::Null, "src/lib.rs", 1, "/tmp").is_empty());
}

#[test]
fn find_name_position_does_not_match_substring() {
    let content = "function renewed() {\n  return new Thing();\n}";
    let (line, _) = find_name_position(Some(content), 1, "new");
    assert!(line < 3, "line should be within search window");
}

#[test]
fn name_position_is_found_below_the_reported_line() {
    assert_eq!(find_name_position(Some("#[test]\nfn greet() {}\n"), 1, "greet"), (1, 3));
    assert_eq!(find_name_position(None, 4, "greet"), (3, 0));
}

#[test]
fn name_inside_another_is_not_meant() {
    let content = "function renewed() {\n  return new Thing();\n}";
    assert_eq!(find_name_position(Some(content), 1, "new"), (1, 9));
    assert_eq!(find_name_position(Some("renewed"), 1, "new"), (0, 0));
    assert_eq!(find_name_position(Some("let createFoo = 1;\nlet recreate = 2;"), 1, "create"), (0, 4));
    assert_eq!(find_name_position(Some("a.$new.b new"), 1, "new"), (0, 9));
}

#[test]
fn name_position_counts_utf16_units() {
    assert_eq!(find_name_position(Some("\u{e9} go"), 1, "go"), (0, 2));
    assert_eq!(find_name_position(Some("\u{1F600} go"), 1, "go"), (0, 3));
}

#[test]
fn text_searches_are_for_whole_words() {
    let symbols = symbol_search("go");
    assert_eq!((symbols.pattern.as_str(), symbols.word, symbols.literal, symbols.max_matches), ("go", true, true, 50));
    let uses = reference_search("go");
    assert_eq!((uses.pattern.as_str(), uses.word, uses.literal, uses.max_matches), ("go", true, true, usize::MAX));
    let line = "go\n".repeat(300);
    assert_eq!(text_search_find_refs("go", &Some(search(&uses, &[("a.rs", line.as_str())]))).len(), 300);
}

#[test]
fn other_sources_are_asked_only_where_there_is_nothing() {
    assert!(matches!(on_implementations(vec![]), ImplStep::AskReferences));
    assert!(matches!(on_implementations(vec![symbol("a.rs", 1, "function")]), ImplStep::Done(v) if v.len() == 1));
    assert!(matches!(on_symbols(vec![]), NameStep::SearchText));
    assert!(matches!(on_symbols(vec![symbol("a.rs", 1, "function")]), NameStep::Use(v) if v.len() == 1));
}

#[test]
fn classify_definition_recognises_const() {
    assert_eq!(
        classify_definition("export const createPromotionsStep = createStep(", "createPromotionsStep"),
        Some("constant")
    );
    assert_eq!(classify_definition("const foo = 1;", "foo"), Some("constant"));
}

#[test]
fn classify_definition_recognises_function() {
    assert_eq!(classify_definition("function greet(name: string) {", "greet"), Some("function"));
    assert_eq!(
        classify_definition("export function handleRequest(req) {", "handleRequest"),
        Some("function")
    );
    assert_eq!(classify_definition("pub fn run() -> Result<()> {", "run"), Some("function"));
}

#[test]
fn classify_definition_rejects_call_sites() {
    assert_eq!(
        classify_definition("const result = createPromotionsStep(data)", "createPromotionsStep"),
        None
    );
    assert_eq!(
        classify_definition("import { createPromotionsStep } from '../steps'", "createPromotionsStep"),
        None
    );
    assert_eq!(classify_definition("return createPromotionsStep(data)", "createPromotionsStep"), None);
}

#[test]
fn classify_definition_detects_kinds() {
    assert_eq!(classify_definition("export class MyClass {", "MyClass"), Some("class"));
    assert_eq!(classify_definition("export function doThing() {", "doThing"), Some("function"));
    assert_eq!(classify_definition("pub fn run() -> Result<()> {", "run"), Some("function"));
    assert_eq!(classify_definition("export const MY_CONST = 42", "MY_CONST"), Some("constant"));
    assert_eq!(classify_definition("export interface IService {", "IService"), Some("interface"));
    assert_eq!(classify_definition("pub struct Config {", "Config"), Some("struct"));
    assert_eq!(classify_definition("type MyAlias = string;", "MyAlias"), Some("type_alias"));
}

fn files(list: &[(&str, &str)]) -> Vec<SourceFile> {
    list.iter()
        .map(|(p, c)| SourceFile { path: format!("/proj/{}", p), bytes: Some(c.as_bytes().to_vec()) })
        .collect()
}

#[test]
fn text_search_find_symbol_finds_const_export() {
    let given = files(&[
        (
            "step.ts",
            "export const createPromotionsStep = createStep(\n  stepId,\n  async () => {}\n);\n",
        ),
        (
            "workflow.ts",
            "import { createPromotionsStep } from './step';\nconst result = createPromotionsStep(data);\n",
        ),
    ]);
    let output = run(&symbol_search("createPromotionsStep"), given, "/proj").ok();
    let results = text_search_find_symbol("createPromotionsStep", &output);
    assert_eq!(results.len(), 1);
    assert!(results[0].path.ends_with("step.ts"));
    assert_eq!(results[0].line, 1);
    assert_eq!(results[0].kind, "constant");
}

#[test]
fn text_search_find_refs_returns_all_occurrences() {
    let given = files(&[
        ("step.ts", "export const createPromotionsStep = createStep(stepId, async () => {});\n"),
        (
            "workflow.ts",
            "import { createPromotionsStep } from './step';\nconst out = createPromotionsStep(data);\n",
        ),
    ]);
    let output = run(&reference_search("createPromotionsStep"), given, "/proj").ok();
    let results = text_search_find_refs("createPromotionsStep", &output);
    assert_eq!(results.len(), 3);
    assert!(results[0].is_definition);
}

#[test]
fn symbol_results_are_filtered_and_sorted() {
    let response = json(
        r#"[
        {"name": "(*svc).Create", "kind": 6, "location": {"uri": "file:///p/b.go", "range": {"start": {"line": 9}}}},
        {"name": "create", "kind": 12, "location": {"uri": "file:///p/a.go", "range": {"start": {"line": 4}}}},
        {"name": "Other", "kind": 12, "location": {"uri": "file:///p/a.go", "range": {"start": {"line": 1}}}}
        ]"#,
    );
    let found = parse_symbol_results(&response, "Create", "/p");
    assert_eq!(found.len(), 2);
    assert_eq!((found[0].path.as_str(), found[0].line), ("a.go", 5));
    assert_eq!((found[1].path.as_str(), found[1].line), ("b.go", 10));
    let filled = fill_previews(found, &vec![Some("1\n2\n3\n4\n  func create() {\n".to_string()), None]);
    assert_eq!(filled[0].preview, "func create() {");
    assert_eq!(filled[1].preview, "");
}

#[test]
fn references_leave_out_build_artifacts() {
    let response = json(
        r#"[
        {"uri": "file:///p/src/z.rs", "range": {"start": {"line": 3}}},
        {"uri": "file:///p/target/debug/x.rs", "range": {"start": {"line": 3}}},
        {"uri": "file:///p/src/a.rs", "range": {"start": {"line": 0}}}
        ]"#,
    );
    let found = parse_reference_results(&response, "src/z.rs", 4, "/p");
    assert_eq!(found.len(), 2);
    assert!(found[0].is_definition);
    assert_eq!(found[0].path, "src/z.rs");
    assert_eq!(found[1].path, "src/a.rs");
}

#[test]
fn line_preview_is_trimmed() {
    assert_eq!(read_line_preview(Some("a\n   b  \n"), 2), "b");
    assert_eq!(read_line_preview(None, 2), "");
}

#[test]
fn body_ends_with_its_braces() {
    let content = "fn a() {\n    {\n    }\n}\nfn b() {}\n";
    assert_eq!(extract_symbol_body(content, 1), Some("fn a() {\n    {\n    }\n}".to_string()));
}

#[test]
fn innermost_symbol_is_found() {
    let outline = vec![SymbolEntry {
        name: "Outer".to_string(),
        kind: "class".to_string(),
        line: 1,
        end_line: 20,
        children: vec![SymbolEntry {
            name: "inner".to_string(),
            kind: "method".to_string(),
            line: 5,
            end_line: 8,
            children: vec![],
        }],
    }];
    assert_eq!(find_innermost_containing(&outline, 6).unwrap().name, "inner");
    assert_eq!(find_innermost_containing(&outline, 12).unwrap().name, "Outer");
    assert!(find_innermost_containing(&outline, 30).is_none());
}

#[test]
fn first_symbol_or_message() {
    assert_eq!(first_symbol("x", &vec![]).err().unwrap(), "symbol 'x' not found");
    assert_eq!(first_symbol("x", &vec![symbol("a.rs", 1, "function")]).ok().unwrap().path, "a.rs");
}

#[test]
fn symbol_location_is_below_the_root() {
    let found = symbol("src/a.rs", 2, "function");
    let location = resolve_symbol_location("go", &found, Some("\npub fn go() {}\n"), "/p");
    assert_eq!(location, ("/p/src/a.rs".to_string(), 1, 7));
    assert_eq!(resolve_symbol_location("go", &found, None, "/p"), ("/p/src/a.rs".to_string(), 1, 0));
}

#[test]
fn edits_count_utf16_units() {
    let insert = |at: u64| {
        let text = format!(
            r#"{{"range": {{"start": {{"line": 0, "character": {at}}}, "end": {{"line": 0, "character": {at}}}}}, "newText": "x"}}"#
        );
        vec![json(&text)]
    };
    assert_eq!(apply_text_edits("\u{1F600}a", &insert(2)), "\u{1F600}xa");
    assert_eq!(apply_text_edits("\u{1F600}a", &insert(3)), "\u{1F600}ax");
    assert_eq!(apply_text_edits("\u{1F600}a", &insert(1)), "x\u{1F600}a");
    assert_eq!(apply_text_edits("\u{e9}a", &insert(1)), "\u{e9}xa");
}

#[test]
fn file_that_is_listed_again_is_edited_on() {
    let insert = |at: u64, to: &str| {
        let text = format!(
            r#"{{"range": {{"start": {{"line": 0, "character": {at}}}, "end": {{"line": 0, "character": {at}}}}}, "newText": "{to}"}}"#
        );
        vec![json(&text)]
    };
    let files = vec![
        ("/p/a.rs".to_string(), insert(0, "1")),
        ("/p/b.rs".to_string(), insert(0, "2")),
        ("/p//a.rs".to_string(), insert(0, "3")),
    ];
    let contents = vec!["a".to_string(), "b".to_string(), "a".to_string()];
    let texts = edit_files(&files, &contents).unwrap();
    let want = vec![("/p/a.rs".to_string(), "31a".to_string()), ("/p/b.rs".to_string(), "2b".to_string())];
    assert_eq!(texts, want);
    let reversed =
        json(r#"{"range": {"start": {"line": 2, "character": 0}, "end": {"line": 0, "character": 0}}, "newText": ""}"#);
    assert!(edit_files(&vec![("/p/a.rs".to_string(), vec![reversed])], &vec!["a\nb\nc".to_string()]).is_none());
}

#[test]
fn edits_give_the_same_text_in_any_order() {
    let edit = |at: u64, to: &str| {
        let text = format!(
            r#"{{"range": {{"start": {{"line": 0, "character": {at}}}, "end": {{"line": 0, "character": {at}}}}}, "newText": "{to}"}}"#
        );
        json(&text)
    };
    assert_eq!(apply_text_edits("abc\n", &vec![edit(1, "x"), edit(2, "y")]), "axbyc\n");
    assert_eq!(apply_text_edits("abc\n", &vec![edit(2, "y"), edit(1, "x")]), "axbyc\n");
}

#[test]
fn edits_that_end_before_they_start_cannot_be_applied() {
    let edits = |a: u64, b: u64| {
        let text = format!(
            r#"{{"range": {{"start": {{"line": {a}, "character": 0}}, "end": {{"line": {b}, "character": 0}}}}, "newText": "x"}}"#
        );
        vec![json(&text)]
    };
    assert!(can_apply("one\ntwo\nthree\n", &edits(0, 1)));
    assert!(!can_apply("one\ntwo\nthree\n", &edits(2, 0)));
}

// ── Fix, format, rename, hover ──────────────────────────────────────────────

#[test]
fn fix_response_shape() {
    let mut tally = FixTally::new();
    tally.record("/p/src/lib.rs", "/p");
    tally.record("/p/src/main.rs", "/p");
    tally.record("/p/src/lib.rs", "/p");
    let data = tally.response();
    assert_eq!(number(&data, "fixes_applied"), 3);
    let files = at(&data, "files").as_array().unwrap();
    assert_eq!(files.len(), 2);
    assert_eq!(files[0].as_str(), Some("src/lib.rs"));
    assert_eq!(files[1].as_str(), Some("src/main.rs"));
}

#[test]
fn fix_no_diagnostics_shape() {
    let data = FixTally::new().response();
    assert_eq!(number(&data, "fixes_applied"), 0);
}

#[test]
fn fix_selects_the_named_file() {
    let all = vec![
        ("/p/a.rs".to_string(), vec![entry(DiagSeverity::Error, 0, 0, None, "x")]),
        ("/p/b.rs".to_string(), vec![]),
    ];
    let kept = select_files(all, Some("a.rs"), "/p");
    assert_eq!(kept.len(), 1);
    assert_eq!(kept[0].0, "/p/a.rs");
}

#[test]
fn fix_applies_only_actions_with_edits() {
    let response = json(r#"[{"title": "a"}, {"edit": null}, {"edit": {"changes": {}}}]"#);
    assert_eq!(edits_to_apply(&response).len(), 1);
    assert!(edits_to_apply(&JsonValue::Null).is_empty());
}

#[test]
fn format_response_shape() {
    let response = json(r#"[{"newText": ""}, {"newText": ""}, {"newText": ""}, {"newText": ""}, {"newText": ""}]"#);
    let plan = handle_format(&response, "file:///p/src/lib.rs", "src/lib.rs");
    assert_eq!(number(&plan.response, "edits_applied"), 5);
    assert_eq!(text(&plan.response, "path"), "src/lib.rs");
    let edit = plan.edit.unwrap();
    assert_eq!(
        at(at(&edit, "changes"), "file:///p/src/lib.rs").as_array().unwrap().len(),
        5
    );
}

#[test]
fn format_without_edits_changes_nothing() {
    let plan = handle_format(&JsonValue::Null, "file:///p/a.rs", "a.rs");
    assert!(plan.edit.is_none());
    assert_eq!(number(&plan.response, "edits_applied"), 0);
}

#[test]
fn rename_response_shape() {
    let edit = json(
        r#"{"changes": {
        "file:///p/a.rs": [{"newText": "x"}, {"newText": "x"}, {"newText": "x"}, {"newText": "x"}],
        "file:///p/b.rs": [{"newText": "x"}, {"newText": "x"}, {"newText": "x"}, {"newText": "x"}],
        "file:///p/c.rs": [{"newText": "x"}, {"newText": "x"}, {"newText": "x"}, {"newText": "x"}]
        }}"#,
    );
    let plan = handle_rename(&edit, "/p");
    assert_eq!(number(&plan.response, "files_changed"), 3);
    assert_eq!(number(&plan.response, "refs_changed"), 12);
}

#[test]
fn rename_of_nothing_changes_nothing() {
    let plan = handle_rename(&JsonValue::Null, "/p");
    assert!(plan.files.is_empty());
    assert_eq!(number(&plan.response, "files_changed"), 0);
    assert_eq!(number(&plan.response, "refs_changed"), 0);
}

#[test]
fn extract_markup_content() {
    let resp = json(r#"{ "contents": { "kind": "markdown", "value": "fn greet()" } }"#);
    assert_eq!(extract_hover_content(&resp), "fn greet()");
}

#[test]
fn extract_string_contents() {
    let resp = json(r#"{ "contents": "hello world" }"#);
    assert_eq!(extract_hover_content(&resp), "hello world");
}

#[test]
fn extract_array_contents() {
    let resp = json(r#"{ "contents": ["type A", { "language": "rust", "value": "fn a()" }] }"#);
    let out = extract_hover_content(&resp);
    assert!(out.contains("type A"));
    assert!(out.contains("fn a()"));
    assert_eq!(out, "type A\nfn a()");
}

#[test]
fn extract_missing_contents() {
    let resp = json(r#"{ "range": {} }"#);
    assert_eq!(extract_hover_content(&resp), "");
}

#[test]
fn hover_line_is_counted_from_one() {
    let data = handle_hover(&json(r#"{"contents": " x "}"#), "a.rs", 4);
    assert_eq!(text(&data, "hover_content"), "x");
    assert_eq!(number(&data, "line"), 5);
}

// ── List ────────────────────────────────────────────────────────────────────

#[test]
fn list_parse_empty_response() {
    assert!(parse_document_symbols(&JsonValue::Null, 2, 1).is_empty());
}

#[test]
fn list_parse_nested_symbols() {
    let response = json(
        r#"[
            {
                "name": "Config",
                "kind": 23,
                "range": { "start": { "line": 4, "character": 0 }, "end": { "line": 7, "character": 1 } },
                "selectionRange": { "start": { "line": 4, "character": 11 }, "end": { "line": 4, "character": 17 } },
                "children": [
                    {
                        "name": "name",
                        "kind": 8,
                        "range": { "start": { "line": 5, "character": 4 }, "end": { "line": 5, "character": 20 } },
                        "selectionRange": { "start": { "line": 5, "character": 8 }, "end": { "line": 5, "character": 12 } }
                    }
                ]
            }
        ]"#,
    );
    let symbols = parse_document_symbols(&response, 2, 1);
    assert_eq!(symbols.len(), 1);
    assert_eq!(symbols[0].name, "Config");
    assert_eq!(symbols[0].kind, "struct");
    assert_eq!(symbols[0].children.len(), 1);
    assert_eq!(symbols[0].children[0].name, "name");
    assert_eq!(symbols[0].children[0].kind, "field");
}

#[test]
fn depth_1_excludes_children() {
    let response = json(
        r#"[
            {
                "name": "Config",
                "kind": 23,
                "range": { "start": { "line": 0, "character": 0 }, "end": { "line": 5, "character": 1 } },
                "selectionRange": { "start": { "line": 0, "character": 0 }, "end": { "line": 0, "character": 6 } },
                "children": [
                    {
                        "name": "field",
                        "kind": 8,
                        "range": { "start": { "line": 1, "character": 0 }, "end": { "line": 1, "character": 10 } },
                        "selectionRange": { "start": { "line": 1, "character": 0 }, "end": { "line": 1, "character": 5 } }
                    }
                ]
            }
        ]"#,
    );
    let symbols = parse_document_symbols(&response, 1, 1);
    assert_eq!(symbols.len(), 1);
    assert!(symbols[0].children.is_empty());
}

#[test]
fn format_compact_output() {
    let symbols = vec![
        SymbolEntry { name: "greet".into(), kind: "function".into(), line: 1, end_line: 3, children: vec![] },
        SymbolEntry {
            name: "Config".into(),
            kind: "struct".into(),
            line: 5,
            end_line: 8,
            children: vec![SymbolEntry {
                name: "name".into(),
                kind: "field".into(),
                line: 6,
                end_line: 6,
                children: vec![],
            }],
        },
    ];
    let out = format_compact(&symbols, 0);
    assert!(out.contains("function greet"));
    assert!(out.contains("struct Config"));
    assert!(out.contains("  field name"));
}

// ── Read ────────────────────────────────────────────────────────────────────

fn bytes(s: &str) -> FileRead {
    FileRead::Bytes(s.as_bytes().to_vec())
}

#[test]
fn binary_detection_rejects_null_bytes() {
    let result = handle_read_file("binary.bin", bytes("hello\u{0}world"), None, None, None, "/p");
    assert!(result.err().unwrap().contains("binary file"));
}

#[test]
fn read_file_basic() {
    let read = bytes("line1\nline2\nline3\nline4\nline5\n");
    let result = handle_read_file("test.txt", read, None, None, None, "/p").ok().unwrap();
    assert_eq!(number(&result, "total"), 5);
    assert_eq!(number(&result, "from"), 1);
    assert_eq!(number(&result, "to"), 5);
    assert_eq!(at(&result, "truncated"), &JsonValue::Bool(false));
    assert!(text(&result, "content").contains("line1"));
}

#[test]
fn read_file_with_range() {
    let read = bytes("a\nb\nc\nd\ne\n");
    let result = handle_read_file("test.txt", read, Some(2), Some(4), None, "/p").ok().unwrap();
    assert_eq!(number(&result, "from"), 2);
    assert_eq!(number(&result, "to"), 4);
    let content = text(&result, "content");
    assert!(content.contains('b'));
    assert!(content.contains('c'));
    assert!(content.contains('d'));
    assert!(!content.contains("\ta\n"));
    assert!(!content.contains("\te\n"));
}

#[test]
fn read_file_truncation() {
    let mut content = String::new();
    for i in 1..=10 {
        content.push_str(&format!("line{}\n", i));
    }
    let result = handle_read_file("test.txt", bytes(&content), None, None, Some(3), "/p").ok().unwrap();
    assert_eq!(at(&result, "truncated"), &JsonValue::Bool(true));
    assert_eq!(number(&result, "to"), 3);
}

#[test]
fn read_file_not_found() {
    let result = handle_read_file("nonexistent.txt", FileRead::Missing, None, None, None, "/p");
    assert!(result.err().unwrap().contains("not found"));
}

#[test]
fn format_numbered_lines_basic() {
    let out = format_numbered_lines(&["hello", "world"], 1);
    assert!(out.contains("   1\thello\n"));
    assert!(out.contains("   2\tworld\n"));
}

#[test]
fn format_numbered_lines_offset() {
    let out = format_numbered_lines(&["a", "b"], 98);
    assert!(out.contains("  98\ta\n"));
    assert!(out.contains("  99\tb\n"));
}

#[test]
fn read_file_past_end() {
    let result = handle_read_file("test.txt", bytes("one\ntwo\n"), Some(100), None, None, "/p");
    assert!(result.err().unwrap().contains("past end"));
}

#[test]
fn read_file_that_fails() {
    assert_eq!(
        handle_read_file("a.txt", FileRead::Failed, None, None, None, "/p").err().unwrap(),
        "failed to read: a.txt"
    );
    assert_eq!(
        handle_read_file("a.txt", FileRead::Bytes(vec![0xff, 0xfe]), None, None, None, "/p").err().unwrap(),
        "file is not valid UTF-8: a.txt"
    );
}

#[test]
fn reading_a_symbol_prefers_a_body() {
    let candidates = vec![symbol("a.ts", 1, "function"), symbol("b.d.ts", 1, "function")];
    let mut reader = SymbolReader::new("f", &candidates, false, None, true).ok().unwrap();
    assert!(matches!(reader.next_step(), ReadStep::Resolve { .. }));
    let stub = reader.on_found(&location("f", 0, 0), "function f(): void;\n");
    assert!(stub.is_none());
    assert!(matches!(reader.next_step(), ReadStep::Resolve { path, .. } if path == "b.d.ts"));
    assert!(reader.on_resolved(Err("no such symbol".to_string())).is_none());
    match reader.next_step() {
        ReadStep::Done(Ok(v)) => assert_eq!(text(&v, "path"), "a.ts"),
        _ => panic!("the stub is the answer"),
    }
    assert_eq!(
        SymbolReader::new("f", &vec![], false, None, false).err().unwrap(),
        "symbol 'f' not found"
    );
}

#[test]
fn dotted_names_are_resolved_after_their_owner() {
    let asked = |reader: &SymbolReader| match reader.next_step() {
        ReadStep::Resolve { symbol, path, .. } => (symbol, path),
        ReadStep::Done(_) => panic!("there is more to resolve"),
    };
    let candidates = vec![symbol("a.rs", 1, "struct"), symbol("b.rs", 1, "struct")];
    let mut reader = SymbolReader::new("Config.new", &candidates, false, None, false).ok().unwrap();
    assert_eq!(asked(&reader), ("Config".to_string(), "a.rs".to_string()));
    assert!(reader.on_resolved(Ok(location("Config", 0, 3))).is_none());
    assert_eq!(asked(&reader), ("Config.new".to_string(), "a.rs".to_string()));
    assert!(reader.on_resolved(Err("no member".to_string())).is_none());
    assert_eq!(asked(&reader), ("Config".to_string(), "b.rs".to_string()));
    assert!(reader.on_resolved(Ok(location("Config", 0, 3))).is_none());
    assert_eq!(reader.on_resolved(Ok(location("new", 1, 1))).unwrap().name, "new");
    reader.on_unreadable();
    match reader.next_step() {
        ReadStep::Done(Err(m)) => assert_eq!(m, "failed to read: b.rs"),
        _ => panic!("no candidate is left"),
    }
}

#[test]
fn declaration_file_is_answered_where_there_is_no_body() {
    let body = "function f() {\n  return 1;\n}\n";
    let declared = vec![symbol("a.d.ts", 1, "function"), symbol("b.d.ts", 1, "function")];
    let mut reader = SymbolReader::new("f", &declared, false, None, true).ok().unwrap();
    for _ in 0..2 {
        assert!(matches!(reader.next_step(), ReadStep::Resolve { .. }));
        assert!(reader.on_found(&location("f", 0, 2), body).is_none());
    }
    match reader.next_step() {
        ReadStep::Done(Ok(v)) => assert_eq!(text(&v, "path"), "a.d.ts"),
        _ => panic!("the first stub is the answer"),
    }
    let mixed = vec![symbol("a.d.ts", 1, "function"), symbol("b.ts", 1, "function")];
    let mut reader = SymbolReader::new("f", &mixed, false, None, true).ok().unwrap();
    assert!(reader.on_found(&location("f", 0, 2), body).is_none());
    assert_eq!(text(&reader.on_found(&location("f", 0, 2), body).unwrap(), "path"), "b.ts");
    let mut reader = SymbolReader::new("f", &mixed, false, None, false).ok().unwrap();
    assert_eq!(text(&reader.on_found(&location("f", 0, 2), body).unwrap(), "path"), "a.d.ts");
}

// ── Search ──────────────────────────────────────────────────────────────────

#[test]
fn search_command_gives_the_options() {
    let command = Command::Search {
        pattern: "x".to_string(),
        path: Some("src".to_string()),
        ignore_case: true,
        word: false,
        literal: true,
        context: 2,
        files: false,
        lang: None,
        max: None,
    };
    let o = search_options(&command).unwrap();
    assert_eq!((o.pattern.as_str(), o.path.as_deref(), o.ignore_case, o.word), ("x", Some("src"), true, false));
    assert_eq!((o.literal, o.context, o.files_only, o.max_matches), (true, 2, false, 200));
    assert!(search_options(&Command::Status).is_none());
}

fn opts(pattern: &str) -> SearchOptions {
    SearchOptions {
        pattern: pattern.to_string(),
        path: None,
        ignore_case: false,
        word: false,
        literal: false,
        context: 0,
        files_only: false,
        lang_filter: None,
        max_matches: 200,
    }
}

fn search(o: &SearchOptions, list: &[(&str, &str)]) -> SearchOutput {
    let names: Vec<String> = list.iter().map(|(p, _)| format!("/proj/{}", p)).collect();
    let wanted = select_searched(names, &o.lang_filter);
    let given: Vec<SourceFile> = files(list).into_iter().filter(|f| wanted.contains(&f.path)).collect();
    run(o, given, "/proj").ok().unwrap()
}

#[test]
fn finds_literal_match() {
    let o = search(
        &SearchOptions { literal: true, ..opts("hello") },
        &[("src/lib.rs", "fn hello() {}\nfn world() {}")],
    );
    assert_eq!(o.total_matches, 1);
    assert_eq!(o.matches[0].line, 1);
    assert!(o.matches[0].preview.contains("hello"));
}

#[test]
fn literal_search_takes_no_pattern() {
    let o = search(&SearchOptions { literal: true, ..opts("a.c") }, &[("x.rs", "abc\na.c")]);
    assert_eq!(o.total_matches, 1);
    assert_eq!(o.matches[0].line, 2);
}

#[test]
fn finds_regex_match() {
    let o = search(&opts(r"\d+"), &[("a.rs", "foo123\nbar456")]);
    assert_eq!(o.total_matches, 2);
    assert_eq!(o.matches[0].column, 4);
}

#[test]
fn ignore_case_works() {
    let o = search(&SearchOptions { ignore_case: true, ..opts("hello") }, &[("a.rs", "Hello\nhello\nHELLO")]);
    assert_eq!(o.total_matches, 3);
}

#[test]
fn word_boundary_works() {
    let o = search(&SearchOptions { word: true, ..opts("foo") }, &[("a.rs", "foobar\nfoo bar\nfoo")]);
    assert_eq!(o.total_matches, 2);
}

#[test]
fn respects_max_matches() {
    let content: String = (1..=10).map(|i| format!("line{}\n", i)).collect();
    let o = search(&SearchOptions { max_matches: 3, ..opts("line") }, &[("a.rs", &content)]);
    assert_eq!(o.total_matches, 3);
    assert!(o.truncated);
}

#[test]
fn skips_binary_files() {
    let mut binary = vec![0u8; 100];
    binary.extend_from_slice(b"hello");
    let given = vec![SourceFile { path: "/proj/file.bin".to_string(), bytes: Some(binary) }];
    let o = run(&opts("hello"), given, "/proj").ok().unwrap();
    assert_eq!(o.total_matches, 0);
}

#[test]
fn lang_filter_ts_only() {
    let o = search(
        &SearchOptions { lang_filter: Some("ts".to_string()), ..opts("foo") },
        &[("a.ts", "const foo = 1;"), ("b.rs", "const foo: i32 = 1;")],
    );
    assert_eq!(o.total_matches, 1);
    assert!(o.matches[0].path.ends_with("a.ts"));
}

#[test]
fn context_lines_correct() {
    let o = search(
        &SearchOptions { context: 1, ..opts("target") },
        &[("a.rs", "line1\nline2\ntarget\nline4\nline5")],
    );
    assert_eq!(o.total_matches, 1);
    let m = &o.matches[0];
    assert_eq!(m.context_before, vec!["line2"]);
    assert_eq!(m.context_after, vec!["line4"]);
}

#[test]
fn files_only_mode() {
    let o = search(
        &SearchOptions { files_only: true, ..opts("needle") },
        &[("a.rs", "needle"), ("b.rs", "haystack")],
    );
    assert_eq!(o.files_with_matches, 1);
}

#[test]
fn no_matches_returns_empty() {
    let o = search(&opts("nonexistent_xyz"), &[("a.rs", "hello world")]);
    assert_eq!(o.total_matches, 0);
    assert!(!o.truncated);
}

#[test]
fn grep_escape_alternation() {
    let o = search(&opts(r"foo\|bar"), &[("a.ts", "import foo\nfrom bar")]);
    assert_eq!(o.total_matches, 2);
}

#[test]
fn grep_escape_plus_and_parens() {
    assert_eq!(normalize_grep_escapes(r"foo\+"), "foo+");
    assert_eq!(normalize_grep_escapes(r"\(foo\)"), "(foo)");
    assert_eq!(normalize_grep_escapes(r"a\?b"), "a?b");
}

#[test]
fn real_pipe_unaffected() {
    let o = search(&opts("foo|bar"), &[("a.ts", "import foo\nfrom bar")]);
    assert_eq!(o.total_matches, 2);
}

#[test]
fn broken_pattern_is_refused() {
    assert_eq!(run(&opts("["), vec![], "/proj").err().unwrap(), "invalid regex pattern: [");
}

#[test]
fn searched_files_come_in_path_order() {
    let names = vec!["/p/b.rs".to_string(), "/p/a/z.rs".to_string(), "/p/a.rs".to_string()];
    assert_eq!(select_searched(names, &None), vec!["/p/a/z.rs", "/p/a.rs", "/p/b.rs"]);
}

// ── Servers ─────────────────────────────────────────────────────────────────

#[test]
fn build_server_list_covers_all_languages() {
    let rows = build_server_list(&vec![None, None, None, None, None]);
    assert_eq!(rows.len(), Language::all().len());
}

#[test]
fn build_server_list_has_rust_analyzer() {
    let rows = build_server_list(&vec![None, None, None, None, None]);
    let rust = rows.iter().find(|r| r.language == "rust").unwrap();
    assert_eq!(rust.server_name, "rust-analyzer");
}

#[test]
fn format_server_list_empty() {
    assert_eq!(format_server_list(&[]), "no servers configured");
}

#[test]
fn format_server_list_installed() {
    let rows = vec![ServerListEntry {
        language: "rust".to_string(),
        server_name: "rust-analyzer".to_string(),
        status: "installed".to_string(),
        path: "/usr/local/bin/rust-analyzer".to_string(),
        install_advice: String::new(),
    }];
    let out = format_server_list(&rows);
    assert!(out.contains("rust"));
    assert!(out.contains("rust-analyzer"));
    assert!(out.contains("installed"));
}

// ── Workspace edits ─────────────────────────────────────────────────────────

#[test]
fn apply_single_line_edit() {
    let edit = json(
        r#"{"changes": {"file:///p/test.rs": [
            {"range": {"start": {"line": 0, "character": 3}, "end": {"line": 0, "character": 8}}, "newText": "greet"}
        ]}}"#,
    );
    let planned = plan_workspace_edit(&edit, "/p");
    assert_eq!(planned.len(), 1);
    assert_eq!(planned[0].0, "/p/test.rs");
    let content = apply_text_edits("fn hello() {}\nfn world() {}\n", &planned[0].1);
    assert!(content.contains("fn greet() {}"));
    assert_eq!(content, "fn greet() {}\nfn world() {}\n");
}

#[test]
fn apply_multi_line_edit() {
    let edit = json(
        r#"{"changes": {"file:///p/test.rs": [
            {"range": {"start": {"line": 0, "character": 0}, "end": {"line": 2, "character": 1}}, "newText": "fn b() {}"}
        ]}}"#,
    );
    let planned = plan_workspace_edit(&edit, "/p");
    let content = apply_text_edits("fn a() {\n    let x = 1;\n}\n", &planned[0].1);
    assert!(content.contains("fn b() {}"));
}

#[test]
fn count_workspace_edits_changes() {
    let edit = json(
        r#"{"changes": {
            "file:///a.rs": [{"range": {}, "newText": "x"}, {"range": {}, "newText": "y"}],
            "file:///b.rs": [{"range": {}, "newText": "z"}]
        }}"#,
    );
    assert_eq!(count_workspace_edits(&edit), 3);
}

#[test]
fn count_workspace_edits_document_changes() {
    let edit = json(
        r#"{"documentChanges": [
            {"textDocument": {"uri": "file:///a.rs"}, "edits": [{"range": {}, "newText": "x"}]}
        ]}"#,
    );
    assert_eq!(count_workspace_edits(&edit), 1);
}
