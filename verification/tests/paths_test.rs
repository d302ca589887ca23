use krait::commands::fix::FixRun;
use krait::config::workspace_name;
use krait::json::JsonValue;
use krait::lsp::client::path_to_uri;
use krait::lsp::diagnostics::{DiagSeverity, DiagnosticEntry};
use krait::lsp::transport::{frame_header, HeaderReader, HeaderStep};
use krait::paths::{
    path_components, path_depth, path_eq, path_extension, path_file_name, path_is_absolute, path_join, path_lt,
    path_parent, path_starts_with, path_with_extension, relative_to, strip_prefix,
};
use krait::commands::workspace_edit::uri_to_path;
use krait::sorting::sort;
use krait::text::{
    decimal_of, index_of_char, join_strings, split_char, split_lines, str_contains, str_eq_no_case, str_lt,
    str_strip_prefix, str_trim,
};

// ── Paths ───────────────────────────────────────────────────────────────────

#[test]
fn components_leave_out_what_does_not_count() {
    assert_eq!(path_components("a//b/./c/"), vec!["a", "b", "c"]);
    assert_eq!(path_components("/a/../b"), vec!["/", "a", "..", "b"]);
    assert_eq!(path_components("./a"), vec![".", "a"]);
    assert_eq!(path_components(""), Vec::<String>::new());
    assert_eq!(path_depth("/a/b"), 3);
}

#[test]
fn paths_with_the_same_components_are_the_same() {
    assert!(path_eq("/a/b/", "/a//b"));
    assert!(!path_eq("a/b", "/a/b"));
    assert!(path_starts_with("/a/bc/d", "/a/bc"));
    assert!(!path_starts_with("/a/bc/d", "/a/b"));
    assert!(path_lt("a/b", "a.b"));
    assert!(path_is_absolute("/"));
}

#[test]
fn paths_are_taken_apart() {
    assert_eq!(path_file_name("/a/b.tar.gz"), Some("b.tar.gz".to_string()));
    assert_eq!(path_file_name("/a/.."), None);
    assert_eq!(path_extension("/a/b.tar.gz"), Some("gz".to_string()));
    assert_eq!(path_extension("/a/.hidden"), None);
    assert_eq!(path_parent("/a/b"), Some("/a".to_string()));
    assert_eq!(path_parent("a"), Some(String::new()));
    assert_eq!(path_parent("/"), None);
    assert_eq!(path_with_extension("/t/krait-1.sock", "pid"), "/t/krait-1.pid");
}

#[test]
fn relative_paths_lead_back() {
    for (path, base) in [("/p/src/a.rs", "/p"), ("/p//src/./a.rs/", "/p/"), ("/p", "/p"), ("/x", "/")] {
        let rel = strip_prefix(path, base).unwrap();
        assert!(path_eq(&path_join(base, &rel), path));
    }
    assert_eq!(strip_prefix("/q/a.rs", "/p"), None);
    assert_eq!(relative_to("/q/a.rs", "/p"), "/q/a.rs");
}

#[test]
fn joined_paths_are_shown_as_they_were() {
    for rel in ["a/b.rs", "a//b.rs", "./a/b.rs"] {
        let shown = strip_prefix(&path_join("/p", rel), "/p").unwrap();
        assert_eq!(path_components(&shown), vec!["a", "b.rs"]);
    }
    assert_eq!(path_join("/p", "/q"), "/q");
    assert_eq!(path_join("", "q"), "q");
}

#[test]
fn workspaces_are_found_again_by_their_names() {
    for dir in ["/p", "/p/packages/api", "/p/./a"] {
        assert!(path_eq(&path_join("/p", &workspace_name(dir, "/p")), dir));
    }
}

#[test]
fn uris_name_their_paths() {
    let uri = path_to_uri("/p/src/a.rs").ok().unwrap();
    assert_eq!(uri_to_path(&uri), "/p/src/a.rs");
}

// ── Headers ─────────────────────────────────────────────────────────────────

#[test]
fn written_headers_are_read() {
    for body in ["", "x", "héllo → wörld"] {
        let header = frame_header(body);
        let lines: Vec<&str> = header.split_inclusive('\n').collect();
        assert_eq!(lines.len(), 2);
        let mut reader = HeaderReader::new();
        assert!(matches!(reader.on_line(Some(lines[0])), HeaderStep::More));
        match reader.on_line(Some(lines[1])) {
            HeaderStep::Body(n) => assert_eq!(n, body.len()),
            _ => panic!("the header ends here"),
        }
    }
}

// ── Texts ───────────────────────────────────────────────────────────────────

#[test]
fn texts_are_split_and_joined() {
    assert_eq!(split_lines("a\r\nb\n\nc"), vec!["a", "b", "", "c"]);
    assert_eq!(split_lines("a\n"), vec!["a"]);
    assert_eq!(split_lines(""), Vec::<String>::new());
    assert_eq!(split_char("a.b..c", '.'), vec!["a", "b", "", "c"]);
    assert_eq!(join_strings(&vec!["a".to_string(), "b".to_string()], ", "), "a, b");
}

#[test]
fn texts_are_searched_and_trimmed() {
    assert!(str_contains("hällo", "äl"));
    assert!(str_contains("x", ""));
    assert_eq!(str_trim("\u{a0} x\t"), "x");
    assert_eq!(str_strip_prefix("file:///a", "file://"), Some("/a".to_string()));
    assert!(str_eq_no_case("RuSt", "rust"));
    assert!(str_lt("Z", "a"));
    assert_eq!(decimal_of(18446744073709551615), "18446744073709551615");
    assert_eq!(index_of_char(&vec!['a', '/', 'b', '/'], '/', 2), 3);
}

#[test]
fn sorting_puts_texts_in_order() {
    let names = vec!["b".to_string(), "a".to_string(), "ab".to_string()];
    assert_eq!(sort(names), vec!["a", "ab", "b"]);
}

// ── Fixes ───────────────────────────────────────────────────────────────────

fn diag(line: u32) -> DiagnosticEntry {
    DiagnosticEntry { severity: DiagSeverity::Error, line, col: 0, code: None, message: "m".to_string() }
}

fn actions(edits: usize) -> JsonValue {
    let edit = || JsonValue::Object(vec![("edit".to_string(), JsonValue::Object(vec![]))]);
    JsonValue::Array((0..edits).map(|_| edit()).collect())
}

#[test]
fn fixes_go_through_all_diagnostics() {
    let files = vec![
        ("/p/a.rs".to_string(), vec![diag(1), diag(2)]),
        ("/p/b.rs".to_string(), vec![diag(3)]),
    ];
    let mut run = FixRun::new(files, None, "/p");
    let mut seen = Vec::new();
    for edits in [2, 0, 1] {
        let (file, d) = run.next().unwrap();
        seen.push((file.to_string(), d.line));
        assert_eq!(run.on_response(&actions(edits)).len(), edits);
    }
    assert!(run.next().is_none());
    assert_eq!(seen[1], ("/p/a.rs".to_string(), 2));
    let answer = run.response();
    assert_eq!(answer.get("fixes_applied").unwrap().as_u64(), Some(3));
    let fixed: Vec<&str> =
        answer.get("files").unwrap().as_array().unwrap().iter().map(|f| f.as_str().unwrap()).collect();
    assert_eq!(fixed, vec!["a.rs", "b.rs"]);
}
