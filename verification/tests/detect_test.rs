use krait::config::{
    config_exists, config_to_package_roots, generate, load, parse_language, priority_roots, starts_at_once,
    workspace_name, ConfigFile, ConfigSource, ProjectConfig, WorkspaceEntry,
};
use krait::daemon::lifecycle::{
    acquire_pid_file, idle_timeout, is_idle_over, pid_path, recorded_pid, LifecycleError,
};
use krait::detect::language::{detect_languages, language_for_file, DirFacts, Language, ProjectFacts};
use krait::detect::project::{detect_project_root, find_package_roots, project_markers, root_candidates, socket_path};
use krait::lang::go::{base_name, receiver_method_matches};
use krait::lang::typescript::is_overload_stub;
use krait::report::{check_edit_input, utc_time_str, watch_line, workspace_line};

// ── Configuration ───────────────────────────────────────────────────────────

#[test]
fn parse_language_variants() {
    assert_eq!(parse_language("rust"), Some(Language::Rust));
    assert_eq!(parse_language("typescript"), Some(Language::TypeScript));
    assert_eq!(parse_language("ts"), Some(Language::TypeScript));
    assert_eq!(parse_language("javascript"), Some(Language::JavaScript));
    assert_eq!(parse_language("js"), Some(Language::JavaScript));
    assert_eq!(parse_language("go"), Some(Language::Go));
    assert_eq!(parse_language("golang"), Some(Language::Go));
    assert_eq!(parse_language("c++"), Some(Language::Cpp));
    assert_eq!(parse_language("cpp"), Some(Language::Cpp));
    assert_eq!(parse_language("unknown"), None);
}

#[test]
fn parse_language_case_insensitive() {
    assert_eq!(parse_language("Rust"), Some(Language::Rust));
    assert_eq!(parse_language("TYPESCRIPT"), Some(Language::TypeScript));
}

#[test]
fn every_language_name_is_parsed() {
    for lang in Language::all() {
        assert_eq!(parse_language(lang.name()), Some(lang));
    }
}

fn workspace(path: &str, language: &str) -> WorkspaceEntry {
    WorkspaceEntry { path: path.to_string(), language: language.to_string(), server: None }
}

fn config(entries: Vec<WorkspaceEntry>) -> ProjectConfig {
    ProjectConfig {
        root: None,
        workspace: entries,
        servers: vec![],
        primary_workspaces: vec!["packages/core".to_string()],
        max_active_sessions: None,
        max_language_servers: None,
    }
}

#[test]
fn load_returns_auto_detected_when_no_config() {
    let loaded = load(ConfigFile::Absent, ConfigFile::Absent);
    assert!(loaded.config.is_none());
    assert!(matches!(loaded.source, ConfigSource::AutoDetected));
    assert!(!starts_at_once(loaded.source));
}

#[test]
fn load_reads_krait_toml() {
    let loaded = load(ConfigFile::Parsed(config(vec![workspace(".", "rust")])), ConfigFile::Absent);
    assert!(loaded.config.is_some());
    assert!(matches!(loaded.source, ConfigSource::KraitToml));
    let config = loaded.config.unwrap();
    assert_eq!(config.workspace.len(), 1);
    assert_eq!(config.workspace[0].path, ".");
    assert_eq!(config.workspace[0].language, "rust");
}

#[test]
fn load_reads_legacy_config() {
    let loaded = load(ConfigFile::Absent, ConfigFile::Parsed(config(vec![workspace(".", "go")])));
    assert!(loaded.config.is_some());
    assert!(matches!(loaded.source, ConfigSource::LegacyKraitToml));
}

#[test]
fn krait_toml_takes_priority_over_legacy() {
    let loaded = load(
        ConfigFile::Parsed(config(vec![workspace(".", "rust")])),
        ConfigFile::Parsed(config(vec![workspace(".", "go")])),
    );
    assert_eq!(loaded.config.unwrap().workspace[0].language, "rust");
    assert!(matches!(loaded.source, ConfigSource::KraitToml));
}

#[test]
fn broken_config_is_passed_over() {
    let loaded = load(ConfigFile::Broken, ConfigFile::Parsed(config(vec![])));
    assert_eq!(loaded.source.label(), "krait.toml");
    assert_eq!(load(ConfigFile::Broken, ConfigFile::Broken).source.label(), "auto-detected");
}

#[test]
fn config_to_package_roots_validates() {
    let c = config(vec![workspace("src", "rust"), workspace("nonexistent", "rust"), workspace("src", "fakeLang")]);
    let roots = config_to_package_roots(&c, "/p", &vec![true, false, true]);
    assert_eq!(roots.len(), 1, "only valid entries should be returned");
    assert_eq!(roots[0].0, Language::Rust);
    assert_eq!(roots[0].1, "/p/src");
    assert_eq!(priority_roots(&c, "/p"), vec!["/p/packages/core"]);
}

#[test]
fn generate_produces_valid_toml() {
    let roots = vec![
        (Language::TypeScript, "/p/packages/api".to_string()),
        (Language::TypeScript, "/p/packages/web".to_string()),
    ];
    let content = generate(&roots, "/p");
    assert!(content.contains("[[workspace]]"));
    assert!(content.contains("packages/api"));
    assert!(content.contains("packages/web"));
    assert!(content.contains("language = \"typescript\""));
    let parsed: toml::Value = toml::from_str(&content).unwrap();
    let entries = parsed.get("workspace").unwrap().as_array().unwrap();
    assert_eq!(entries.len(), 2);
    assert_eq!(entries[0].get("path").unwrap().as_str(), Some("packages/api"));
}

#[test]
fn generated_roots_are_read_back() {
    let roots = vec![
        (Language::Rust, "/p".to_string()),
        (Language::Cpp, "/p/native lib/#1".to_string()),
        (Language::TypeScript, "/elsewhere/web".to_string()),
    ];
    let parsed: toml::Value = toml::from_str(&generate(&roots, "/p")).unwrap();
    let text = |entry: &toml::Value, key: &str| entry.get(key).unwrap().as_str().unwrap().to_string();
    let workspace: Vec<WorkspaceEntry> = parsed
        .get("workspace")
        .unwrap()
        .as_array()
        .unwrap()
        .iter()
        .map(|e| WorkspaceEntry { path: text(e, "path"), language: text(e, "language"), server: None })
        .collect();
    assert_eq!(workspace[0].path, ".");
    let config = ProjectConfig {
        root: None,
        workspace,
        servers: vec![],
        primary_workspaces: vec![],
        max_active_sessions: None,
        max_language_servers: None,
    };
    let found = config_to_package_roots(&config, "/p", &vec![true, true, true]);
    assert_eq!(found.len(), 3);
    for (a, b) in found.iter().zip(&roots) {
        assert_eq!(a.0, b.0);
        assert_eq!(std::path::Path::new(&a.1), std::path::Path::new(&b.1));
    }
}

#[test]
fn generate_dot_for_root_workspace() {
    let content = generate(&[(Language::Rust, "/p".to_string())], "/p");
    assert!(content.contains("path = \".\""));
    assert_eq!(workspace_name("/p", "/p"), ".");
}

#[test]
fn config_exists_detects_files() {
    assert!(!config_exists(false, false));
    assert!(config_exists(true, false));
    assert!(config_exists(false, true));
}

#[test]
fn generate_includes_priority_and_sessions_comments() {
    let content = generate(&[(Language::Rust, "/p".to_string())], "/p");
    assert!(content.contains("primary_workspaces"));
    assert!(content.contains("max_active_sessions"));
}

// ── Lifecycle ───────────────────────────────────────────────────────────────

#[test]
fn pid_path_from_socket_path() {
    assert_eq!(pid_path("/tmp/krait-abc123.sock"), "/tmp/krait-abc123.pid");
}

#[test]
fn acquire_pid_file_creates_file() {
    let step = acquire_pid_file(None, false, 4711).ok().unwrap();
    assert_eq!(step.contents, "4711");
    assert!(!step.removes_stale);
}

#[test]
fn acquire_pid_file_rejects_live_process() {
    let result = acquire_pid_file(Some("4711\n"), true, 12);
    let err = result.err().unwrap();
    assert_eq!(err, LifecycleError::AlreadyRunning { pid: 4711 });
    assert!(err.message().contains("already running"));
    assert_eq!(err.message(), "Daemon already running (pid 4711)");
}

#[test]
fn acquire_pid_file_cleans_stale() {
    let step = acquire_pid_file(Some("999999999"), false, 4711).ok().unwrap();
    assert_eq!(step.contents, "4711");
    assert!(step.removes_stale);
    assert!(acquire_pid_file(Some("garbage"), true, 1).ok().unwrap().removes_stale);
}

#[test]
fn pids_are_read() {
    assert_eq!(recorded_pid(" 17 \n"), Some(17));
    assert_eq!(recorded_pid("+17"), Some(17));
    assert_eq!(recorded_pid("4294967296"), None);
    assert_eq!(recorded_pid(""), None);
    assert_eq!(LifecycleError::Io { message: "gone".to_string() }.message(), "IO error: gone");
}

#[test]
fn idle_timeout_is_set_by_a_number() {
    assert_eq!(idle_timeout(None), 1800);
    assert_eq!(idle_timeout(Some("5")), 5);
    assert_eq!(idle_timeout(Some("soon")), 1800);
    assert!(is_idle_over(5, 5));
    assert!(!is_idle_over(4, 5));
}

// ── Languages ───────────────────────────────────────────────────────────────

fn strings(list: &[&str]) -> Vec<String> {
    list.iter().map(|s| s.to_string()).collect()
}

fn dir(present: &[&str], src: Option<&[&str]>) -> DirFacts {
    DirFacts { present: strings(present), src_names: src.map(strings) }
}

fn project(names: &[&str], src: Option<&[&str]>, packages: Vec<DirFacts>) -> ProjectFacts {
    ProjectFacts { root: dir(names, src), root_names: strings(names), packages }
}

#[test]
fn detects_rust_project() {
    assert_eq!(detect_languages(&project(&["Cargo.toml"], None, vec![])), vec![Language::Rust]);
}

#[test]
fn detects_typescript_project() {
    assert_eq!(detect_languages(&project(&["tsconfig.json"], None, vec![])), vec![Language::TypeScript]);
}

#[test]
fn detects_typescript_from_package_json_with_ts_files() {
    let facts = project(&["package.json", "src"], Some(&["index.ts"]), vec![]);
    assert_eq!(detect_languages(&facts), vec![Language::TypeScript]);
}

#[test]
fn detects_typescript_monorepo_with_packages() {
    let facts = project(&["package.json", "packages"], None, vec![dir(&["tsconfig.json"], None)]);
    assert_eq!(detect_languages(&facts), vec![Language::TypeScript]);
}

#[test]
fn detects_typescript_nested_under_src() {
    let facts = project(&["src"], Some(&["frontend"]), vec![dir(&["tsconfig.json"], None)]);
    assert_eq!(detect_languages(&facts), vec![Language::TypeScript]);
}

#[test]
fn detects_typescript_in_the_sources_of_a_package() {
    let facts = project(&["package.json", "apps"], None, vec![dir(&[], Some(&["main.tsx"]))]);
    assert_eq!(detect_languages(&facts), vec![Language::TypeScript]);
}

#[test]
fn detects_javascript_from_package_json_without_ts() {
    assert_eq!(detect_languages(&project(&["package.json"], None, vec![])), vec![Language::JavaScript]);
}

#[test]
fn detects_go_project() {
    assert_eq!(detect_languages(&project(&["go.mod"], None, vec![])), vec![Language::Go]);
}

#[test]
fn detects_polyglot() {
    let facts = project(&["Cargo.toml", "package.json"], None, vec![]);
    assert_eq!(detect_languages(&facts), vec![Language::Rust, Language::JavaScript]);
}

#[test]
fn empty_project_returns_empty() {
    assert!(detect_languages(&project(&[], None, vec![])).is_empty());
}

#[test]
fn detects_cpp_from_cmake() {
    assert_eq!(detect_languages(&project(&["CMakeLists.txt"], None, vec![])), vec![Language::Cpp]);
}

#[test]
fn detects_c_project_from_root_c_files() {
    assert_eq!(detect_languages(&project(&["main.c"], None, vec![])), vec![Language::Cpp]);
}

#[test]
fn detects_c_project_from_src_c_files() {
    assert_eq!(detect_languages(&project(&["src"], Some(&["app.c"]), vec![])), vec![Language::Cpp]);
}

#[test]
fn detects_cpp_project_from_src_cpp_files() {
    assert_eq!(detect_languages(&project(&["src"], Some(&["main.cpp"]), vec![])), vec![Language::Cpp]);
}

#[test]
fn headers_only_not_detected_as_c() {
    assert!(detect_languages(&project(&["config.h"], None, vec![])).is_empty());
}

#[test]
fn extensions_tell_the_language() {
    assert_eq!(language_for_file("src/app.tsx"), Some(Language::TypeScript));
    assert_eq!(language_for_file("a/b.mjs"), Some(Language::JavaScript));
    assert_eq!(language_for_file("Makefile"), None);
    assert_eq!(language_for_file(".rs"), None);
}

// ── Project roots ───────────────────────────────────────────────────────────

fn root_with(from: &str, marked_dir: Option<&str>) -> String {
    let marked: Vec<bool> = root_candidates(from).iter().map(|d| Some(d.as_str()) == marked_dir).collect();
    detect_project_root(from, &marked)
}

#[test]
fn detects_git_root() {
    assert!(project_markers().contains(&".git"));
    assert_eq!(root_with("/tmp/x", Some("/tmp/x")), "/tmp/x");
}

#[test]
fn detects_cargo_root() {
    assert!(project_markers().contains(&"Cargo.toml"));
    assert_eq!(root_with("/tmp/x", Some("/tmp/x")), "/tmp/x");
}

#[test]
fn detects_krait_root() {
    assert_eq!(project_markers()[0], ".krait");
    assert_eq!(root_with("/tmp/x", Some("/tmp/x")), "/tmp/x");
}

#[test]
fn nested_dir_walks_up() {
    assert_eq!(root_candidates("/tmp/x/a/b"), vec!["/tmp/x/a/b", "/tmp/x/a", "/tmp/x", "/tmp", "/"]);
    assert_eq!(root_with("/tmp/x/a/b/c", Some("/tmp/x")), "/tmp/x");
}

#[test]
fn no_marker_returns_cwd() {
    assert_eq!(root_with("/tmp/x", None), "/tmp/x");
}

fn roots(files: &[&str], configured: bool) -> Vec<(Language, String)> {
    let all: Vec<String> = files.iter().map(|f| format!("/p/{}", f)).collect();
    find_package_roots(&all, "/p", configured)
}

fn count(roots: &[(Language, String)], lang: Language) -> usize {
    roots.iter().filter(|(l, _)| *l == lang).count()
}

#[test]
fn find_package_roots_simple_rust() {
    let r = roots(&["Cargo.toml"], false);
    assert_eq!(r.len(), 1);
    assert_eq!(r[0].0, Language::Rust);
    assert_eq!(r[0].1, "/p");
}

#[test]
fn find_package_roots_monorepo_with_denesting() {
    let r = roots(&["crates/mylib/Cargo.toml", "Cargo.toml", "packages/api/tsconfig.json"], false);
    assert_eq!(count(&r, Language::Rust), 1, "one Rust root (workspace covers crates)");
    assert_eq!(count(&r, Language::TypeScript), 1, "one TypeScript root");
    assert_eq!(r[0], (Language::Rust, "/p".to_string()));
}

#[test]
fn find_package_roots_ts_monorepo_multiple_packages() {
    let r = roots(
        &[
            "package.json",
            "packages/api/tsconfig.json",
            "packages/web/tsconfig.json",
            "packages/common/tsconfig.json",
        ],
        false,
    );
    assert_eq!(count(&r, Language::TypeScript), 3);
}

#[test]
fn find_package_roots_skips_root_js_when_sub_packages_have_tsconfig() {
    let r = roots(&["package.json", "packages/api/tsconfig.json", "packages/web/tsconfig.json"], false);
    assert!(
        !r.contains(&(Language::JavaScript, "/p".to_string())),
        "root package.json should be skipped when sub-packages have tsconfig"
    );
    assert_eq!(count(&r, Language::TypeScript), 2);
    let kept = roots(&["package.json", "packages/api/tsconfig.json"], true);
    assert!(kept.contains(&(Language::JavaScript, "/p".to_string())));
}

#[test]
fn find_package_roots_keeps_root_when_it_has_tsconfig() {
    let r = roots(&["package.json", "tsconfig.json", "packages/api/tsconfig.json"], true);
    assert_eq!(
        r.iter().filter(|x| **x == (Language::TypeScript, "/p".to_string())).count(),
        1,
        "root with tsconfig should be kept"
    );
}

#[test]
fn find_package_roots_deeply_nested_manifests() {
    let r = roots(
        &[
            "packages/modules/providers/package.json",
            "packages/modules/providers/tsconfig.json",
            "src/frontend/package.json",
            "src/frontend/tsconfig.json",
        ],
        false,
    );
    assert_eq!(count(&r, Language::TypeScript), 2, "should find both deeply nested TS roots");
}

#[test]
fn find_package_roots_arbitrary_directory_structure() {
    let r = roots(&["go.mod", "frontend/package.json", "frontend/tsconfig.json"], false);
    assert_eq!(count(&r, Language::Go), 1, "should find Go root");
    assert_eq!(count(&r, Language::TypeScript), 1, "should find TS in frontend/");
}

#[test]
fn socket_path_is_deterministic() {
    assert_eq!(socket_path("/tmp/a", "/tmp"), socket_path("/tmp/a", "/tmp"));
}

#[test]
fn socket_path_differs_per_project() {
    assert_ne!(socket_path("/tmp/a", "/tmp"), socket_path("/tmp/b", "/tmp"));
}

#[test]
fn socket_path_format() {
    let path = socket_path("/tmp/a", "/tmp");
    let name = path.strip_prefix("/tmp/").unwrap();
    assert!(name.starts_with("krait-"));
    assert!(name.ends_with(".sock"));
    assert_eq!(name.len(), "krait-".len() + 16 + ".sock".len());
}

// ── Names ───────────────────────────────────────────────────────────────────

#[test]
fn strips_pointer_receiver() {
    assert_eq!(base_name("(*knowledgeService).CreateKnowledgeFromFile"), "CreateKnowledgeFromFile");
}

#[test]
fn strips_value_receiver() {
    assert_eq!(base_name("(userRepo).Save"), "Save");
}

#[test]
fn passthrough_no_receiver() {
    assert_eq!(base_name("ProcessUsers"), "ProcessUsers");
}

#[test]
fn passthrough_empty() {
    assert_eq!(base_name(""), "");
}

#[test]
fn receiver_method_matches_pointer() {
    assert!(receiver_method_matches("(*Handler).CreateSession", "Handler", "CreateSession"));
}

#[test]
fn receiver_method_matches_value() {
    assert!(receiver_method_matches("(userRepo).Save", "userRepo", "Save"));
}

#[test]
fn receiver_method_wrong_method() {
    assert!(!receiver_method_matches("(*Handler).CreateSession", "Handler", "DeleteSession"));
}

#[test]
fn receiver_method_wrong_receiver() {
    assert!(!receiver_method_matches("(*Handler).CreateSession", "Router", "CreateSession"));
}

#[test]
fn receiver_method_no_receiver_prefix() {
    assert!(!receiver_method_matches("ProcessUsers", "ProcessUsers", ""));
}

#[test]
fn stub_has_no_brace() {
    assert!(is_overload_stub(&["function foo(x: number): string;"]));
}

#[test]
fn implementation_has_brace() {
    assert!(!is_overload_stub(&["function foo(x: number): string {", "  return x.toString();", "}"]));
}

#[test]
fn empty_is_stub() {
    assert!(is_overload_stub(&[]));
}

// ── Reports ─────────────────────────────────────────────────────────────────

#[test]
fn time_of_day_has_two_digits_each() {
    assert_eq!(utc_time_str(0), "00:00:00");
    assert_eq!(utc_time_str(86399), "23:59:59");
    assert_eq!(utc_time_str(86400 + 3661), "01:01:01");
}

#[test]
fn lines_for_the_user() {
    assert_eq!(workspace_line(Language::Rust, "/p/crates/a", "/p"), "  rust  crates/a");
    assert_eq!(watch_line("10:00:00", ""), "[10:00:00] No diagnostics");
    assert_eq!(watch_line("10:00:00", " x \n"), "[10:00:00] x");
    assert!(check_edit_input("fn a() {}").is_ok());
    assert!(check_edit_input(" \n\t").err().unwrap().starts_with("No input."));
}
