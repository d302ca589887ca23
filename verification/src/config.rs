//! The project configuration.

use crate::commands::edit::{is_line, joined_lines_read_back};
use crate::detect::language::Language;
use crate::lsp::pool::root_views;
use crate::paths::{
    components, has_components, is_absolute, joined, joined_components, names, names_behind, path_join,
    relative_is_part, relative_leads_back, relative_or_self, relative_to, same_path, spans, spans_from, under,
};
use crate::text::{
    char_count, char_index, char_index_after, char_index_is_first, chop_cr, eq_no_case, join, lines, starts_with,
    str_eq_no_case, views,
};
use vstd::prelude::*;

verus! {

// ── The configuration ───────────────────────────────────────────────────────

/// The parsed project configuration.
#[derive(Debug)]
pub struct ProjectConfig {
    /// Project root override.
    pub root: Option<String>,
    /// The workspaces, each of which gets its own language server.
    pub workspace: Vec<WorkspaceEntry>,
    /// Per-language server overrides.
    pub servers: Vec<(String, ServerOverride)>,
    /// Workspaces to start first and never to evict, relative to the project root.
    pub primary_workspaces: Vec<String>,
    /// Greatest number of concurrent sessions of a server without workspace folders.
    pub max_active_sessions: Option<usize>,
    /// Greatest number of concurrent language servers.
    pub max_language_servers: Option<usize>,
}

/// One workspace to index.
#[derive(Debug)]
pub struct WorkspaceEntry {
    /// Path of the workspace, relative to the project root.
    pub path: String,
    /// Language name.
    pub language: String,
    /// Server binary override.
    pub server: Option<String>,
}

/// Override of the default server binary and arguments for a language.
#[derive(Debug)]
pub struct ServerOverride {
    /// Binary name or path.
    pub binary: Option<String>,
    /// Command-line arguments.
    pub args: Option<Vec<String>>,
}

/// Where the configuration comes from.
#[derive(Debug, Clone, Copy, PartialEq, Eq, Structural)]
pub enum ConfigSource {
    /// `.krait/krait.toml`.
    KraitToml,
    /// `krait.toml` at the project root.
    LegacyKraitToml,
    /// There is no configuration file.
    AutoDetected,
}

impl ConfigSource {
    /// The name of the source.
    pub open spec fn text(self) -> Seq<char> {
        match self {
            ConfigSource::KraitToml => ".krait/krait.toml"@,
            ConfigSource::LegacyKraitToml => "krait.toml"@,
            ConfigSource::AutoDetected => "auto-detected"@,
        }
    }

    /// Human-readable label for status output.
    pub fn label(&self) -> (r: &'static str)
        ensures
            r@ == self.text(),
    {
        match self {
            ConfigSource::KraitToml => ".krait/krait.toml",
            ConfigSource::LegacyKraitToml => "krait.toml",
            ConfigSource::AutoDetected => "auto-detected",
        }
    }
}

/// The configuration, where there is one, and its source.
#[derive(Debug)]
pub struct LoadedConfig {
    pub config: Option<ProjectConfig>,
    pub source: ConfigSource,
}

/// What came of reading a configuration file.
pub enum ConfigFile {
    /// There is no such file.
    Absent,
    /// The file cannot be read or parsed.
    Broken,
    /// What the file holds.
    Parsed(ProjectConfig),
}

/// Where the configuration is looked for, relative to the project root: first inside `.krait`, then
/// at the project root.
pub fn config_paths(project_root: &str) -> (r: (String, String))
    ensures
        r.0@ == joined(project_root@, ".krait/krait.toml"@),
        r.1@ == joined(project_root@, "krait.toml"@),
{
    (path_join(project_root, ".krait/krait.toml"), path_join(project_root, "krait.toml"))
}

/// Chooses the configuration: the first of the two files that can be parsed. A broken file is
/// passed over.
pub fn load(primary: ConfigFile, legacy: ConfigFile) -> (r: LoadedConfig)
    ensures
        r == match primary {
            ConfigFile::Parsed(c) => LoadedConfig { config: Some(c), source: ConfigSource::KraitToml },
            _ => match legacy {
                ConfigFile::Parsed(c) => LoadedConfig { config: Some(c), source: ConfigSource::LegacyKraitToml },
                _ => LoadedConfig { config: None, source: ConfigSource::AutoDetected },
            },
        },
{
    if let ConfigFile::Parsed(c) = primary {
        return LoadedConfig { config: Some(c), source: ConfigSource::KraitToml };
    }
    if let ConfigFile::Parsed(c) = legacy {
        return LoadedConfig { config: Some(c), source: ConfigSource::LegacyKraitToml };
    }
    LoadedConfig { config: None, source: ConfigSource::AutoDetected }
}

/// Whether a configuration is there, given which of the two files are.
pub fn config_exists(primary: bool, legacy: bool) -> (r: bool)
    ensures
        r == (primary || legacy),
{
    primary || legacy
}

/// Whether the servers are started at once, which a configuration asks for.
pub fn starts_at_once(source: ConfigSource) -> (r: bool)
    ensures
        r == (source != ConfigSource::AutoDetected),
{
    match source {
        ConfigSource::AutoDetected => false,
        _ => true,
    }
}

/// The workspaces whose language is known and whose directory is there.
pub open spec fn configured_roots(entries: Seq<WorkspaceEntry>, is_dir: Seq<bool>, root: Seq<char>) -> Seq<
    (Language, Seq<char>),
>
    decreases entries.len(),
{
    if entries.len() == 0 {
        Seq::empty()
    } else {
        let rest = configured_roots(entries.drop_last(), is_dir, root);
        match language_named(entries.last().language@) {
            Some(lang) => if is_dir[entries.len() - 1] {
                rest.push((lang, joined(root, entries.last().path@)))
            } else {
                rest
            },
            None => rest,
        }
    }
}

/// Converts a configuration into workspace roots. Entries with unknown languages or missing
/// directories are skipped; `is_dir` tells of each entry whether its directory is there.
pub fn config_to_package_roots(config: &ProjectConfig, project_root: &str, is_dir: &Vec<bool>) -> (r: Vec<
    (Language, String),
>)
    requires
        is_dir@.len() == config.workspace@.len(),
    ensures
        root_views(r@) == configured_roots(config.workspace@, is_dir@, project_root@),
{
    let ghost all = config.workspace@;
    let mut roots: Vec<(Language, String)> = Vec::new();
    let mut i: usize = 0;
    assert(all.take(0) =~= Seq::empty());
    assert(root_views(roots@) =~= Seq::empty());
    while i < config.workspace.len()
        invariant
            0 <= i <= config.workspace@.len(),
            all == config.workspace@,
            is_dir@.len() == all.len(),
            root_views(roots@) == configured_roots(all.take(i as int), is_dir@, project_root@),
        decreases config.workspace@.len() - i,
    {
        let entry = &config.workspace[i];
        assert(all.take(i + 1).drop_last() =~= all.take(i as int));
        assert(all.take(i + 1).last() == *entry);
        if let Some(lang) = parse_language(entry.language.as_str()) {
            if is_dir[i] {
                let ghost before = root_views(roots@);
                let abs = path_join(project_root, entry.path.as_str());
                let ghost av = abs@;
                roots.push((lang, abs));
                assert(root_views(roots@) =~= before.push((lang, av)));
            }
        }
        i = i + 1;
    }
    assert(all.take(i as int) =~= all);
    roots
}

/// The workspaces to start first, as absolute paths.
pub fn priority_roots(config: &ProjectConfig, project_root: &str) -> (r: Vec<String>)
    ensures
        views(r@) == Seq::new(
            config.primary_workspaces@.len(),
            |i: int| joined(project_root@, config.primary_workspaces@[i]@),
        ),
{
    let mut out: Vec<String> = Vec::new();
    let mut i: usize = 0;
    while i < config.primary_workspaces.len()
        invariant
            0 <= i <= config.primary_workspaces@.len(),
            views(out@) =~= Seq::new(
                i as nat,
                |i: int| joined(project_root@, config.primary_workspaces@[i]@),
            ),
        decreases config.primary_workspaces@.len() - i,
    {
        let ghost before = views(out@);
        let p = path_join(project_root, config.primary_workspaces[i].as_str());
        let ghost pv = p@;
        out.push(p);
        assert(views(out@) =~= before.push(pv));
        i = i + 1;
    }
    out
}

// ── Languages ───────────────────────────────────────────────────────────────

/// The language that a name stands for, whatever the case of its letters.
pub open spec fn language_named(name: Seq<char>) -> Option<Language> {
    if eq_no_case(name, "rust"@) {
        Some(Language::Rust)
    } else if eq_no_case(name, "typescript"@) || eq_no_case(name, "ts"@) {
        Some(Language::TypeScript)
    } else if eq_no_case(name, "javascript"@) || eq_no_case(name, "js"@) {
        Some(Language::JavaScript)
    } else if eq_no_case(name, "go"@) || eq_no_case(name, "golang"@) {
        Some(Language::Go)
    } else if eq_no_case(name, "cpp"@) || eq_no_case(name, "c++"@) || eq_no_case(name, "cxx"@) || eq_no_case(
        name,
        "c"@,
    ) {
        Some(Language::Cpp)
    } else {
        None
    }
}

/// Parses a language name.
pub fn parse_language(name: &str) -> (r: Option<Language>)
    ensures
        r == language_named(name@),
{
    if str_eq_no_case(name, "rust") {
        Some(Language::Rust)
    } else if str_eq_no_case(name, "typescript") || str_eq_no_case(name, "ts") {
        Some(Language::TypeScript)
    } else if str_eq_no_case(name, "javascript") || str_eq_no_case(name, "js") {
        Some(Language::JavaScript)
    } else if str_eq_no_case(name, "go") || str_eq_no_case(name, "golang") {
        Some(Language::Go)
    } else if str_eq_no_case(name, "cpp") || str_eq_no_case(name, "c++") || str_eq_no_case(name, "cxx")
        || str_eq_no_case(name, "c") {
        Some(Language::Cpp)
    } else {
        None
    }
}

/// The name of a language is parsed as that language.
pub proof fn language_name_is_parsed(lang: Language)
    ensures
        language_named(lang.label()) == Some(lang),
{
    reveal_strlit("rust");
    reveal_strlit("typescript");
    reveal_strlit("ts");
    reveal_strlit("javascript");
    reveal_strlit("js");
    reveal_strlit("go");
    reveal_strlit("golang");
    reveal_strlit("cpp");
    reveal_strlit("c++");
    reveal_strlit("cxx");
    reveal_strlit("c");
    match lang {
        Language::Rust => {},
        Language::TypeScript => {
            assert("typescript"@.len() != "rust"@.len());
        },
        Language::JavaScript => {
            assert("javascript"@[0] != "typescript"@[0]);
        },
        Language::Go => {
            assert("go"@[0] != "ts"@[0]);
            assert("go"@[0] != "js"@[0]);
        },
        Language::Cpp => {
            assert("c++"@.len() == 3);
        },
    }
}

// ── Writing a configuration ─────────────────────────────────────────────────

/// The path of a workspace as a configuration names it.
pub open spec fn shown_path(path: Seq<char>, root: Seq<char>) -> Seq<char> {
    let rel = relative_or_self(path, root);
    if rel.len() == 0 {
        "."@
    } else {
        rel
    }
}

/// Computes the path of a workspace as a configuration and the index name it.
pub fn workspace_name(path: &str, project_root: &str) -> (r: String)
    ensures
        r@ == shown_path(path@, project_root@),
{
    let rel = relative_to(path, project_root);
    if char_count(rel.as_str()) == 0 {
        ".".to_string()
    } else {
        rel
    }
}

/// A workspace is found again by the path under which a configuration names it, where it lies under
/// the project root or its path is absolute.
pub proof fn named_workspace_is_found(dir: Seq<char>, root: Seq<char>)
    requires
        dir.len() > 0,
        under(dir, root) || is_absolute(dir),
    ensures
        same_path(joined(root, shown_path(dir, root)), dir),
{
    if under(dir, root) {
        relative_leads_back(dir, root);
        let rel = relative_or_self(dir, root);
        if rel.len() == 0 {
            if root.len() == 0 {
                has_components(dir);
                assert(joined(root, rel) == rel);
                assert(spans_from(rel, 0) =~= Seq::empty());
                assert(components(rel).len() == 0);
            } else {
                let dot = "."@;
                reveal_strlit(".");
                assert(dot =~= seq!['.']);
                assert(dot.skip(0) =~= dot);
                assert(dot.drop_first() =~= Seq::empty());
                reveal_with_fuel(crate::text::char_index, 3);
                assert(char_index(dot, '/') == 1);
                reveal_with_fuel(crate::paths::spans_from, 3);
                assert(spans(dot) =~= seq![(0int, 1int)]);
                assert(names(dot)[0] =~= dot);
                joined_components(root, dot);
                joined_components(root, rel);
                assert(spans(rel) =~= Seq::empty());
                assert(names_behind(rel) =~= Seq::empty());
                assert(names_behind(dot) =~= Seq::empty());
            }
        }
    }
}

/// The entry of one workspace.
pub open spec fn workspace_text(root: (Language, Seq<char>), project_root: Seq<char>) -> Seq<char> {
    "[[workspace]]\n"@ + "path = \""@ + shown_path(root.1, project_root) + "\"\n"@ + "language = \""@ + root.0.label()
        + "\"\n"@ + "\n"@
}

/// The entries of workspaces.
pub open spec fn workspaces_text(roots: Seq<(Language, Seq<char>)>, project_root: Seq<char>) -> Seq<char>
    decreases roots.len(),
{
    if roots.len() == 0 {
        Seq::empty()
    } else {
        workspaces_text(roots.drop_last(), project_root) + workspace_text(roots.last(), project_root)
    }
}

/// What stands above the workspaces.
pub open spec fn config_head() -> Seq<char> {
    "# krait.toml — generated by `krait init`\n"@ + "# Edit this file to customize which workspaces to index.\n"@
        + "# Remove entries you don't need. Run `krait daemon stop` after changes.\n\n"@
}

/// What stands below the workspaces: the other settings, as comments.
pub open spec fn config_tail() -> Seq<char> {
    "# Priority workspaces — always warm, exempt from LRU eviction\n"@
        + "# primary_workspaces = [\"packages/core\", \"packages/api\"]\n\n"@
        + "# Maximum concurrent LSP sessions for non-multi-root servers (default: 10)\n"@
        + "# max_active_sessions = 10\n\n"@
        + "# Maximum concurrent language server processes across all languages (default: unlimited)\n"@
        + "# When exceeded, the least-recently-used language server is shut down.\n"@
        + "# max_language_servers = 10\n\n"@ + "# Server overrides (uncomment to customize)\n"@
        + "# [servers.typescript]\n"@ + "# binary = \"vtsls\"\n"@ + "# args = [\"--stdio\"]\n"@
}

fn make_head() -> (r: String)
    ensures
        r@ == config_head(),
{
    let mut out = "# krait.toml — generated by `krait init`\n".to_string();
    out.append("# Edit this file to customize which workspaces to index.\n");
    out.append("# Remove entries you don't need. Run `krait daemon stop` after changes.\n\n");
    out
}

fn make_tail() -> (r: String)
    ensures
        r@ == config_tail(),
{
    let mut out = "# Priority workspaces — always warm, exempt from LRU eviction\n".to_string();
    out.append("# primary_workspaces = [\"packages/core\", \"packages/api\"]\n\n");
    out.append("# Maximum concurrent LSP sessions for non-multi-root servers (default: 10)\n");
    out.append("# max_active_sessions = 10\n\n");
    out.append("# Maximum concurrent language server processes across all languages (default: unlimited)\n");
    out.append("# When exceeded, the least-recently-used language server is shut down.\n");
    out.append("# max_language_servers = 10\n\n");
    out.append("# Server overrides (uncomment to customize)\n");
    out.append("# [servers.typescript]\n");
    out.append("# binary = \"vtsls\"\n");
    out.append("# args = [\"--stdio\"]\n");
    out
}

fn make_workspace(lang: Language, path: &str, project_root: &str) -> (r: String)
    ensures
        r@ == workspace_text((lang, path@), project_root@),
{
    let mut out = "[[workspace]]\n".to_string();
    out.append("path = \"");
    out.append(workspace_name(path, project_root).as_str());
    out.append("\"\n");
    out.append("language = \"");
    out.append(lang.name());
    out.append("\"\n");
    out.append("\n");
    out
}

/// The text of a configuration for workspace roots.
pub open spec fn config_text(roots: Seq<(Language, Seq<char>)>, project_root: Seq<char>) -> Seq<char> {
    config_head() + workspaces_text(roots, project_root) + config_tail()
}

/// Writes the text of a configuration for workspace roots.
pub fn generate(package_roots: &[(Language, String)], project_root: &str) -> (r: String)
    ensures
        r@ == config_text(root_views(package_roots@), project_root@),
{
    let ghost all = root_views(package_roots@);
    let mut middle = String::new();
    let mut i: usize = 0;
    assert(all.take(0) =~= Seq::empty());
    while i < package_roots.len()
        invariant
            0 <= i <= package_roots@.len(),
            all == root_views(package_roots@),
            middle@ == workspaces_text(all.take(i as int), project_root@),
        decreases package_roots@.len() - i,
    {
        assert(all.take(i + 1).drop_last() =~= all.take(i as int));
        assert(all.take(i + 1).last() == all[i as int]);
        let piece = make_workspace(package_roots[i].0, package_roots[i].1.as_str(), project_root);
        middle.append(piece.as_str());
        i = i + 1;
    }
    assert(all.take(i as int) =~= all);
    let mut out = make_head();
    out.append(middle.as_str());
    out.append(make_tail().as_str());
    out
}

// ── Reading a generated configuration back ──────────────────────────────────

/// A character that stands for itself between quotes.
pub open spec fn is_plain(c: char) -> bool {
    c != '"' && c != '\\' && c as u32 >= 0x20 && c as u32 != 0x7f
}

/// All characters stand for themselves between quotes.
pub open spec fn all_plain(s: Seq<char>) -> bool {
    forall|i: int| 0 <= i < s.len() ==> is_plain(#[trigger] s[i])
}

/// A line that sets nothing: it is empty, or a comment.
pub open spec fn sets_nothing(line: Seq<char>) -> bool {
    line.len() == 0 || line[0] == '#'
}

/// The text that a line of the form `key = "text"` sets the key to.
pub open spec fn setting(key: Seq<char>, line: Seq<char>) -> Option<Seq<char>> {
    let front = key + " = \""@;
    let value = line.subrange(front.len() as int, line.len() - 1);
    if line.len() > front.len() && starts_with(line, front) && line.last() == '"' && all_plain(value) {
        Some(value)
    } else {
        None
    }
}

/// The workspaces of a configuration, as path and language, after one more line was read: `None`
/// where the line is none that a configuration of workspaces has.
pub open spec fn read_line(got: Seq<(Seq<char>, Seq<char>)>, line: Seq<char>) -> Option<Seq<(Seq<char>, Seq<char>)>> {
    if sets_nothing(line) {
        Some(got)
    } else if line == "[[workspace]]"@ {
        Some(got.push((Seq::empty(), Seq::empty())))
    } else if got.len() == 0 {
        None
    } else {
        match setting("path"@, line) {
            Some(v) => Some(got.update(got.len() - 1, (v, got.last().1))),
            None => match setting("language"@, line) {
                Some(v) => Some(got.update(got.len() - 1, (got.last().0, v))),
                None => None,
            },
        }
    }
}

/// The workspaces of a configuration, as path and language, after more lines were read.
pub open spec fn read_lines(got: Seq<(Seq<char>, Seq<char>)>, ls: Seq<Seq<char>>) -> Option<
    Seq<(Seq<char>, Seq<char>)>,
>
    decreases ls.len(),
{
    if ls.len() == 0 {
        Some(got)
    } else {
        match read_line(got, ls[0]) {
            Some(g) => read_lines(g, ls.drop_first()),
            None => None,
        }
    }
}

/// The workspaces that the text of a configuration lists, as path and language, where each of its
/// lines is empty, a comment, the head of a workspace, or the path or language of one in quotes.
pub open spec fn listed_workspaces(text: Seq<char>) -> Option<Seq<(Seq<char>, Seq<char>)>> {
    read_lines(Seq::empty(), lines(text))
}

/// The workspaces of a configuration as path and language.
pub open spec fn entry_views(entries: Seq<WorkspaceEntry>) -> Seq<(Seq<char>, Seq<char>)> {
    Seq::new(entries.len(), |i: int| (entries[i].path@, entries[i].language@))
}

/// Workspace roots as a configuration names them.
pub open spec fn named_roots(roots: Seq<(Language, Seq<char>)>, project_root: Seq<char>) -> Seq<(Seq<char>, Seq<char>)> {
    Seq::new(roots.len(), |i: int| (shown_path(roots[i].1, project_root), roots[i].0.label()))
}

proof fn read_lines_add(got: Seq<(Seq<char>, Seq<char>)>, a: Seq<Seq<char>>, b: Seq<Seq<char>>)
    ensures
        read_lines(got, a + b) == match read_lines(got, a) {
            Some(g) => read_lines(g, b),
            None => None,
        },
    decreases a.len(),
{
    if a.len() == 0 {
        assert(a + b =~= b);
    } else {
        assert((a + b)[0] == a[0]);
        assert((a + b).drop_first() =~= a.drop_first() + b);
        if let Some(g) = read_line(got, a[0]) {
            read_lines_add(g, a.drop_first(), b);
        }
    }
}

/// The lines of a text that ends with a line feed come before those of what follows it.
proof fn lines_add(a: Seq<char>, b: Seq<char>)
    requires
        a.len() > 0 ==> a.last() == '\n',
    ensures
        lines(a + b) == lines(a) + lines(b),
    decreases a.len(),
{
    if a.len() == 0 {
        assert(a + b =~= b);
        assert(lines(a) + lines(b) =~= lines(b));
    } else {
        char_index_is_first(a, '\n');
        let n = char_index(a, '\n');
        assert(a[a.len() - 1] == '\n');
        assert(n < a.len());
        let front = a.take(n);
        let rest = a.skip(n + 1);
        assert(a + b =~= front + seq!['\n'] + (rest + b));
        char_index_after(front, rest + b, '\n');
        assert((a + b).take(n) =~= front);
        assert((a + b).skip(n + 1) =~= rest + b);
        if rest.len() > 0 {
            assert(rest.last() == a.last());
        }
        lines_add(rest, b);
        assert(lines(a + b) =~= lines(a) + lines(b));
    }
}

/// From position `i` on, each line of `s` is empty or starts as a comment.
spec fn comments_from(s: Seq<char>, i: int) -> bool
    decreases s.len() - i,
{
    i >= s.len() - 1 || ((s[i] == '\n' ==> s[i + 1] == '\n' || s[i + 1] == '#') && comments_from(s, i + 1))
}

/// A text that is made of empty lines and comments.
spec fn is_comment(s: Seq<char>) -> bool {
    s.len() > 0 ==> (s[0] == '#' || s[0] == '\n') && s.last() == '\n' && comments_from(s, 0)
}

proof fn comments_behind(s: Seq<char>, i: int, k: int)
    requires
        comments_from(s, i),
        0 <= i <= k,
    ensures
        comments_from(s, k),
        k < s.len() - 1 && s[k] == '\n' ==> s[k + 1] == '\n' || s[k + 1] == '#',
    decreases k - i,
{
    if i < k && i < s.len() - 1 {
        comments_behind(s, i + 1, k);
    }
}

proof fn comments_of_part(s: Seq<char>, o: int, i: int)
    requires
        0 <= o,
        0 <= i,
        o <= s.len(),
        comments_from(s, o + i),
    ensures
        comments_from(s.skip(o), i),
    decreases s.len() - o - i,
{
    if i < s.skip(o).len() - 1 {
        comments_of_part(s, o, i + 1);
    }
}

/// Comments set nothing.
proof fn comments_set_nothing(got: Seq<(Seq<char>, Seq<char>)>, s: Seq<char>)
    requires
        is_comment(s),
    ensures
        read_lines(got, lines(s)) == Some(got),
    decreases s.len(),
{
    if s.len() > 0 {
        char_index_is_first(s, '\n');
        let n = char_index(s, '\n');
        assert(s[s.len() - 1] == '\n');
        assert(n < s.len());
        let rest = s.skip(n + 1);
        let line = chop_cr(s.take(n));
        assert(s[n] == '\n');
        if n > 0 {
            assert(s.take(n)[0] == s[0]);
            assert(s[0] == '#');
            assert(line[0] == '#');
        }
        assert(sets_nothing(line));
        comments_behind(s, 0, n);
        comments_behind(s, 0, n + 1);
        if rest.len() > 0 {
            comments_of_part(s, n + 1, 0);
            assert(rest.last() == s.last());
            assert(rest[0] == s[n + 1]);
        }
        comments_set_nothing(got, rest);
        assert((seq![line] + lines(rest)).drop_first() =~= lines(rest));
    }
}

/// Two texts of comments make one.
proof fn comments_follow(got: Seq<(Seq<char>, Seq<char>)>, a: Seq<char>, b: Seq<char>)
    requires
        a.len() > 0 ==> a.last() == '\n',
        b.len() > 0 ==> b.last() == '\n',
        read_lines(got, lines(a)) == Some(got),
        read_lines(got, lines(b)) == Some(got),
    ensures
        read_lines(got, lines(a + b)) == Some(got),
        (a + b).len() > 0 ==> (a + b).last() == '\n',
{
    lines_add(a, b);
    read_lines_add(got, lines(a), lines(b));
    if b.len() > 0 {
        assert((a + b).last() == b.last());
    } else {
        assert(a + b =~= a);
    }
}

/// What stands above the workspaces sets nothing.
proof fn head_sets_nothing(got: Seq<(Seq<char>, Seq<char>)>)
    ensures
        read_lines(got, lines(config_head())) == Some(got),
        config_head().last() == '\n',
        config_head().len() > 0,
{
    let part0 = "# krait.toml — generated by `krait init`\n"@;
    assert(is_comment(part0) && part0.len() > 0) by {
        reveal_strlit("# krait.toml — generated by `krait init`\n");
        reveal_with_fuel(comments_from, 42);
    }
    comments_set_nothing(got, part0);
    let part1 = "# Edit this file to customize which workspaces to index.\n"@;
    assert(is_comment(part1) && part1.len() > 0) by {
        reveal_strlit("# Edit this file to customize which workspaces to index.\n");
        reveal_with_fuel(comments_from, 58);
    }
    comments_set_nothing(got, part1);
    let part2 = "# Remove entries you don't need. Run `krait daemon stop` after changes.\n\n"@;
    assert(is_comment(part2) && part2.len() > 0) by {
        reveal_strlit("# Remove entries you don't need. Run `krait daemon stop` after changes.\n\n");
        reveal_with_fuel(comments_from, 74);
    }
    comments_set_nothing(got, part2);
    comments_follow(got, part0, part1);
    comments_follow(got, part0 + part1, part2);
}

/// What stands below the workspaces sets nothing.
proof fn tail_sets_nothing(got: Seq<(Seq<char>, Seq<char>)>)
    ensures
        read_lines(got, lines(config_tail())) == Some(got),
        config_tail().last() == '\n',
        config_tail().len() > 0,
{
    let part0 = "# Priority workspaces — always warm, exempt from LRU eviction\n"@;
    assert(is_comment(part0) && part0.len() > 0) by {
        reveal_strlit("# Priority workspaces — always warm, exempt from LRU eviction\n");
        reveal_with_fuel(comments_from, 63);
    }
    comments_set_nothing(got, part0);
    let part1 = "# primary_workspaces = [\"packages/core\", \"packages/api\"]\n\n"@;
    assert(is_comment(part1) && part1.len() > 0) by {
        reveal_strlit("# primary_workspaces = [\"packages/core\", \"packages/api\"]\n\n");
        reveal_with_fuel(comments_from, 59);
    }
    comments_set_nothing(got, part1);
    let part2 = "# Maximum concurrent LSP sessions for non-multi-root servers (default: 10)\n"@;
    assert(is_comment(part2) && part2.len() > 0) by {
        reveal_strlit("# Maximum concurrent LSP sessions for non-multi-root servers (default: 10)\n");
        reveal_with_fuel(comments_from, 76);
    }
    comments_set_nothing(got, part2);
    let part3 = "# max_active_sessions = 10\n\n"@;
    assert(is_comment(part3) && part3.len() > 0) by {
        reveal_strlit("# max_active_sessions = 10\n\n");
        reveal_with_fuel(comments_from, 29);
    }
    comments_set_nothing(got, part3);
    let part4 = "# Maximum concurrent language server processes across all languages (default: unlimited)\n"@;
    assert(is_comment(part4) && part4.len() > 0) by {
        reveal_strlit("# Maximum concurrent language server processes across all languages (default: unlimited)\n");
        reveal_with_fuel(comments_from, 90);
    }
    comments_set_nothing(got, part4);
    let part5 = "# When exceeded, the least-recently-used language server is shut down.\n"@;
    assert(is_comment(part5) && part5.len() > 0) by {
        reveal_strlit("# When exceeded, the least-recently-used language server is shut down.\n");
        reveal_with_fuel(comments_from, 72);
    }
    comments_set_nothing(got, part5);
    let part6 = "# max_language_servers = 10\n\n"@;
    assert(is_comment(part6) && part6.len() > 0) by {
        reveal_strlit("# max_language_servers = 10\n\n");
        reveal_with_fuel(comments_from, 30);
    }
    comments_set_nothing(got, part6);
    let part7 = "# Server overrides (uncomment to customize)\n"@;
    assert(is_comment(part7) && part7.len() > 0) by {
        reveal_strlit("# Server overrides (uncomment to customize)\n");
        reveal_with_fuel(comments_from, 45);
    }
    comments_set_nothing(got, part7);
    let part8 = "# [servers.typescript]\n"@;
    assert(is_comment(part8) && part8.len() > 0) by {
        reveal_strlit("# [servers.typescript]\n");
        reveal_with_fuel(comments_from, 24);
    }
    comments_set_nothing(got, part8);
    let part9 = "# binary = \"vtsls\"\n"@;
    assert(is_comment(part9) && part9.len() > 0) by {
        reveal_strlit("# binary = \"vtsls\"\n");
        reveal_with_fuel(comments_from, 20);
    }
    comments_set_nothing(got, part9);
    let part10 = "# args = [\"--stdio\"]\n"@;
    assert(is_comment(part10) && part10.len() > 0) by {
        reveal_strlit("# args = [\"--stdio\"]\n");
        reveal_with_fuel(comments_from, 22);
    }
    comments_set_nothing(got, part10);
    comments_follow(got, part0, part1);
    comments_follow(got, part0 + part1, part2);
    comments_follow(got, part0 + part1 + part2, part3);
    comments_follow(got, part0 + part1 + part2 + part3, part4);
    comments_follow(got, part0 + part1 + part2 + part3 + part4, part5);
    comments_follow(got, part0 + part1 + part2 + part3 + part4 + part5, part6);
    comments_follow(got, part0 + part1 + part2 + part3 + part4 + part5 + part6, part7);
    comments_follow(got, part0 + part1 + part2 + part3 + part4 + part5 + part6 + part7, part8);
    comments_follow(got, part0 + part1 + part2 + part3 + part4 + part5 + part6 + part7 + part8, part9);
    comments_follow(got, part0 + part1 + part2 + part3 + part4 + part5 + part6 + part7 + part8 + part9, part10);
}


/// A path without characters that need quoting is shown without them.
proof fn shown_is_plain(path: Seq<char>, root: Seq<char>)
    requires
        all_plain(path),
    ensures
        all_plain(shown_path(path, root)),
{
    reveal_strlit(".");
    relative_is_part(path, root);
    let rel = relative_or_self(path, root);
    assert forall|i: int| 0 <= i < rel.len() implies is_plain(#[trigger] rel[i]) by {
        assert(path.contains(rel[i]));
        let k = choose|k: int| 0 <= k < path.len() && path[k] == rel[i];
        assert(is_plain(path[k]));
    }
}

proof fn label_is_plain(lang: Language)
    ensures
        all_plain(lang.label()),
{
    reveal_strlit("rust");
    reveal_strlit("typescript");
    reveal_strlit("javascript");
    reveal_strlit("go");
    reveal_strlit("c++");
    let s = lang.label();
    assert forall|i: int| 0 <= i < s.len() implies is_plain(#[trigger] s[i]) by {
        assert(s.len() <= 10);
        assert(i == 0 || i == 1 || i == 2 || i == 3 || i == 4 || i == 5 || i == 6 || i == 7 || i == 8 || i == 9);
    }
}

/// A line that sets a key to a text without characters that need quoting: it is one line, and is read
/// as what it sets.
proof fn setting_is_read(key: Seq<char>, value: Seq<char>)
    requires
        all_plain(key),
        all_plain(value),
    ensures
        setting(key, key + " = \""@ + value + "\""@) == Some(value),
        is_line(key + " = \""@ + value + "\""@),
{
    reveal_strlit(" = \"");
    reveal_strlit("\"");
    let front = key + " = \""@;
    let line = front + value + "\""@;
    assert(line.last() == '"');
    assert(line.take(front.len() as int) =~= front);
    assert(line.subrange(0, front.len() as int) =~= front);
    assert(line.subrange(front.len() as int, line.len() - 1) =~= value);
    assert forall|i: int| 0 <= i < line.len() implies #[trigger] line[i] != '\n' by {
        if i < key.len() {
            assert(line[i] == key[i]);
            assert(is_plain(key[i]));
        } else if i < front.len() {
            assert(line[i] == " = \""@[i - key.len()]);
            let k = i - key.len();
            assert(k == 0 || k == 1 || k == 2 || k == 3);
        } else if i < line.len() - 1 {
            assert(line[i] == value[i - front.len()]);
            assert(is_plain(value[i - front.len()]));
        }
    }
}

/// The entry of a workspace is read as its path and language.
proof fn workspace_is_read(got: Seq<(Seq<char>, Seq<char>)>, root: (Language, Seq<char>), project_root: Seq<char>)
    requires
        all_plain(root.1),
    ensures
        read_lines(got, lines(workspace_text(root, project_root))) == Some(
            got.push((shown_path(root.1, project_root), root.0.label())),
        ),
        workspace_text(root, project_root).len() > 0,
        workspace_text(root, project_root).last() == '\n',
{
    let path = shown_path(root.1, project_root);
    let label = root.0.label();
    shown_is_plain(root.1, project_root);
    label_is_plain(root.0);
    reveal_strlit("path");
    reveal_strlit("language");
    assert forall|i: int| 0 <= i < "path"@.len() implies is_plain(#[trigger] "path"@[i]) by {
        assert(i == 0 || i == 1 || i == 2 || i == 3);
    }
    assert forall|i: int| 0 <= i < "language"@.len() implies is_plain(#[trigger] "language"@[i]) by {
        assert(i == 0 || i == 1 || i == 2 || i == 3 || i == 4 || i == 5 || i == 6 || i == 7);
    }
    setting_is_read("path"@, path);
    setting_is_read("language"@, label);
    let head = "[[workspace]]"@;
    let path_line = "path"@ + " = \""@ + path + "\""@;
    let language_line = "language"@ + " = \""@ + label + "\""@;
    let empty = Seq::<char>::empty();
    let ls = seq![head, path_line, language_line, empty];
    let text = workspace_text(root, project_root);
    reveal_strlit("[[workspace]]");
    reveal_strlit("[[workspace]]\n");
    reveal_strlit("path = \"");
    reveal_strlit("language = \"");
    reveal_strlit(" = \"");
    reveal_strlit("\"");
    reveal_strlit("\"\n");
    reveal_strlit("\n");
    assert(!head.contains('\n')) by {
        assert forall|i: int| 0 <= i < head.len() implies #[trigger] head[i] != '\n' by {
            assert(i == 0 || i == 1 || i == 2 || i == 3 || i == 4 || i == 5 || i == 6 || i == 7 || i == 8 || i == 9 || i
                == 10 || i == 11 || i == 12);
        }
    }
    assert(is_line(head));
    assert(is_line(empty));
    assert forall|i: int| 0 <= i < ls.len() implies is_line(#[trigger] ls[i]) by {
        assert(i == 0 || i == 1 || i == 2 || i == 3);
    }
    joined_lines_read_back(ls);
    let feed = seq!['\n'];
    assert("[[workspace]]\n"@ =~= head + feed);
    assert("path = \""@ =~= "path"@ + " = \""@);
    assert("language = \""@ =~= "language"@ + " = \""@);
    assert("\"\n"@ =~= "\""@ + feed);
    assert("\n"@ =~= feed);
    assert(ls.drop_last() =~= seq![head, path_line, language_line]);
    assert(ls.drop_last().drop_last() =~= seq![head, path_line]);
    assert(ls.drop_last().drop_last().drop_last() =~= seq![head]);
    assert(join(seq![head], feed) == head);
    assert(join(seq![head, path_line], feed) == head + feed + path_line);
    assert(join(seq![head, path_line, language_line], feed) == head + feed + path_line + feed + language_line);
    assert(join(ls, feed) == head + feed + path_line + feed + language_line + feed + empty);
    assert(text =~= join(ls, feed).push('\n'));
    assert(lines(text) == ls);
    assert(text.last() == '\n');
    assert(head[0] == '[');
    let one = got.push((empty, empty));
    assert(read_line(got, head) == Some(one));
    assert(path_line[0] == 'p');
    let two = one.update(one.len() - 1, (path, one.last().1));
    assert(read_line(one, path_line) == Some(two));
    assert(language_line[0] == 'l');
    assert(!starts_with(language_line, "path"@ + " = \""@)) by {
        let front = "path"@ + " = \""@;
        assert(front[0] == 'p');
        if starts_with(language_line, front) {
            assert(language_line.subrange(0, front.len() as int)[0] == language_line[0]);
            assert(language_line.take(front.len() as int)[0] == language_line[0]);
        }
    }
    let three = two.update(two.len() - 1, (two.last().0, label));
    assert(read_line(two, language_line) == Some(three));
    assert(three =~= got.push((path, label)));
    assert(ls.drop_first() =~= seq![path_line, language_line, empty]);
    assert(ls.drop_first().drop_first() =~= seq![language_line, empty]);
    assert(ls.drop_first().drop_first().drop_first() =~= seq![empty]);
    assert(ls.drop_first().drop_first().drop_first().drop_first() =~= Seq::empty());
    reveal_with_fuel(read_lines, 6);
}

proof fn workspaces_are_read(roots: Seq<(Language, Seq<char>)>, project_root: Seq<char>)
    requires
        forall|i: int| 0 <= i < roots.len() ==> all_plain((#[trigger] roots[i]).1),
    ensures
        read_lines(Seq::empty(), lines(workspaces_text(roots, project_root))) == Some(named_roots(roots, project_root)),
        workspaces_text(roots, project_root).len() > 0 ==> workspaces_text(roots, project_root).last() == '\n',
    decreases roots.len(),
{
    if roots.len() == 0 {
        assert(lines(workspaces_text(roots, project_root)) =~= Seq::empty());
        assert(named_roots(roots, project_root) =~= Seq::empty());
    } else {
        let init = roots.drop_last();
        assert forall|i: int| 0 <= i < init.len() implies all_plain((#[trigger] init[i]).1) by {
            assert(init[i] == roots[i]);
        }
        workspaces_are_read(init, project_root);
        let before = workspaces_text(init, project_root);
        let entry = workspace_text(roots.last(), project_root);
        assert(all_plain(roots[roots.len() - 1].1));
        workspace_is_read(named_roots(init, project_root), roots.last(), project_root);
        lines_add(before, entry);
        read_lines_add(Seq::empty(), lines(before), lines(entry));
        assert((before + entry).last() == entry.last());
        assert(named_roots(roots, project_root) =~= named_roots(init, project_root).push(
            (shown_path(roots.last().1, project_root), roots.last().0.label()),
        ));
    }
}

/// The text of a generated configuration lists the workspace roots that it was generated for, each by
/// its name and language and in the same order, where no path has a character that needs quoting.
pub proof fn generated_roots_are_listed(roots: Seq<(Language, Seq<char>)>, project_root: Seq<char>)
    requires
        forall|i: int| 0 <= i < roots.len() ==> all_plain((#[trigger] roots[i]).1),
    ensures
        listed_workspaces(config_text(roots, project_root)) == Some(named_roots(roots, project_root)),
{
    let none = Seq::<(Seq<char>, Seq<char>)>::empty();
    let named = named_roots(roots, project_root);
    let middle = workspaces_text(roots, project_root);
    head_sets_nothing(none);
    workspaces_are_read(roots, project_root);
    tail_sets_nothing(named);
    lines_add(config_head(), middle);
    read_lines_add(none, lines(config_head()), lines(middle));
    let upper = config_head() + middle;
    assert(upper.last() == '\n') by {
        if middle.len() > 0 {
            assert(upper.last() == middle.last());
        } else {
            assert(upper =~= config_head());
        }
    }
    lines_add(upper, config_tail());
    read_lines_add(none, lines(upper), lines(config_tail()));
}

/// A configuration that lists workspace roots by name gives them back.
proof fn named_roots_lead_back(
    roots: Seq<(Language, Seq<char>)>,
    project_root: Seq<char>,
    entries: Seq<WorkspaceEntry>,
    is_dir: Seq<bool>,
)
    requires
        forall|i: int|
            0 <= i < roots.len() ==> (#[trigger] roots[i]).1.len() > 0 && (under(roots[i].1, project_root)
                || is_absolute(roots[i].1)),
        entry_views(entries) == named_roots(roots, project_root),
        roots.len() <= is_dir.len(),
        forall|i: int| 0 <= i < roots.len() ==> #[trigger] is_dir[i],
    ensures
        ({
            let found = configured_roots(entries, is_dir, project_root);
            &&& found.len() == roots.len()
            &&& forall|i: int|
                0 <= i < roots.len() ==> (#[trigger] found[i]).0 == roots[i].0 && same_path(found[i].1, roots[i].1)
        }),
    decreases roots.len(),
{
    assert(entries.len() == roots.len()) by {
        assert(entry_views(entries).len() == entries.len());
        assert(named_roots(roots, project_root).len() == roots.len());
    }
    if roots.len() > 0 {
        let n = roots.len() - 1;
        let init = roots.drop_last();
        let fewer = entries.drop_last();
        assert forall|i: int| 0 <= i < init.len() implies (#[trigger] init[i]).1.len() > 0 && (under(
            init[i].1,
            project_root,
        ) || is_absolute(init[i].1)) by {
            assert(init[i] == roots[i]);
        }
        assert(entry_views(fewer) =~= named_roots(init, project_root)) by {
            assert forall|i: int| 0 <= i < init.len() implies #[trigger] entry_views(fewer)[i] == named_roots(
                init,
                project_root,
            )[i] by {
                assert(entry_views(entries)[i] == named_roots(roots, project_root)[i]);
                assert(fewer[i] == entries[i]);
                assert(init[i] == roots[i]);
            }
        }
        named_roots_lead_back(init, project_root, fewer, is_dir);
        assert(entry_views(entries)[n] == named_roots(roots, project_root)[n]);
        assert(roots[n].1.len() > 0);
        language_name_is_parsed(roots[n].0);
        named_workspace_is_found(roots[n].1, project_root);
        assert(is_dir[n]);
        let rest = configured_roots(fewer, is_dir, project_root);
        let found = configured_roots(entries, is_dir, project_root);
        assert(found == rest.push((roots[n].0, joined(project_root, shown_path(roots[n].1, project_root)))));
        assert forall|i: int| 0 <= i < roots.len() implies (#[trigger] found[i]).0 == roots[i].0 && same_path(
            found[i].1,
            roots[i].1,
        ) by {
            if i < n {
                assert(found[i] == rest[i]);
                assert(init[i] == roots[i]);
            }
        }
    }
}

/// Generating a configuration for workspace roots and reading it back gives the same roots: the same
/// languages and paths in the same order.
///
/// The directories are there, no path has a character that needs quoting, and each lies under the
/// project root or is absolute. `config` holds the workspaces that the generated text lists.
pub proof fn generated_roots_are_read_back(
    roots: Seq<(Language, Seq<char>)>,
    project_root: Seq<char>,
    config: ProjectConfig,
    is_dir: Seq<bool>,
)
    requires
        forall|i: int|
            0 <= i < roots.len() ==> (#[trigger] roots[i]).1.len() > 0 && all_plain(roots[i].1) && (under(
                roots[i].1,
                project_root,
            ) || is_absolute(roots[i].1)),
        listed_workspaces(config_text(roots, project_root)) == Some(entry_views(config.workspace@)),
        is_dir.len() == config.workspace@.len(),
        forall|i: int| 0 <= i < is_dir.len() ==> #[trigger] is_dir[i],
    ensures
        ({
            let found = configured_roots(config.workspace@, is_dir, project_root);
            &&& found.len() == roots.len()
            &&& forall|i: int|
                0 <= i < roots.len() ==> (#[trigger] found[i]).0 == roots[i].0 && same_path(found[i].1, roots[i].1)
        }),
{
    assert forall|i: int| 0 <= i < roots.len() implies all_plain((#[trigger] roots[i]).1) by {}
    generated_roots_are_listed(roots, project_root);
    assert(entry_views(config.workspace@).len() == named_roots(roots, project_root).len());
    named_roots_lead_back(roots, project_root, config.workspace@, is_dir);
}

/// The roots of a configuration are the directories of the workspaces whose language is known and whose directory
/// is there, seen from the project root.
pub proof fn workspaces_that_are_there_are_roots(entries: Seq<WorkspaceEntry>, is_dir: Seq<bool>, root: Seq<char>)
    requires
        entries.len() <= is_dir.len(),
    ensures
        forall|i: int|
            0 <= i < entries.len() && language_named((#[trigger] entries[i]).language@) is Some && is_dir[i]
                ==> configured_roots(entries, is_dir, root).contains(
                (language_named(entries[i].language@)->Some_0, joined(root, entries[i].path@)),
            ),
        forall|k: int|
            0 <= k < configured_roots(entries, is_dir, root).len() ==> exists|i: int|
                0 <= i < entries.len() && is_dir[i] && language_named((#[trigger] entries[i]).language@) == Some(
                    (#[trigger] configured_roots(entries, is_dir, root)[k]).0,
                ) && configured_roots(entries, is_dir, root)[k].1 == joined(root, entries[i].path@),
        (forall|i: int| 0 <= i < entries.len() ==> is_dir[i] && language_named((#[trigger] entries[i]).language@) is Some)
            ==> configured_roots(entries, is_dir, root) == entries.map_values(
            |e: WorkspaceEntry| (language_named(e.language@)->Some_0, joined(root, e.path@)),
        ),
    decreases entries.len(),
{
    let f = |e: WorkspaceEntry| (language_named(e.language@)->Some_0, joined(root, e.path@));
    let all = configured_roots(entries, is_dir, root);
    if entries.len() > 0 {
        let init = entries.drop_last();
        let rest = configured_roots(init, is_dir, root);
        workspaces_that_are_there_are_roots(init, is_dir, root);
        assert(entries[entries.len() - 1] == entries.last());
        assert forall|i: int|
            0 <= i < entries.len() && language_named((#[trigger] entries[i]).language@) is Some && is_dir[i] implies all.contains(
            (language_named(entries[i].language@)->Some_0, joined(root, entries[i].path@)),
        ) by {
            if i < init.len() {
                assert(init[i] == entries[i]);
                let c = (language_named(entries[i].language@)->Some_0, joined(root, entries[i].path@));
                assert(rest.contains(c));
                let k = choose|k: int| 0 <= k < rest.len() && rest[k] == c;
                assert(all[k] == c);
            } else {
                assert(all[all.len() - 1] == f(entries.last()));
            }
        }
        assert forall|k: int| 0 <= k < all.len() implies exists|i: int|
            0 <= i < entries.len() && is_dir[i] && language_named((#[trigger] entries[i]).language@) == Some(
                (#[trigger] all[k]).0,
            ) && all[k].1 == joined(root, entries[i].path@) by {
            if k < rest.len() {
                assert(all[k] == rest[k]);
                let i = choose|i: int|
                    0 <= i < init.len() && is_dir[i] && language_named((#[trigger] init[i]).language@) == Some(rest[k].0)
                        && rest[k].1 == joined(root, init[i].path@);
                assert(entries[i] == init[i]);
            }
        }
        if forall|i: int| 0 <= i < entries.len() ==> is_dir[i] && language_named((#[trigger] entries[i]).language@) is Some {
            assert forall|i: int| 0 <= i < init.len() implies is_dir[i] && language_named(
                (#[trigger] init[i]).language@,
            ) is Some by {
                assert(init[i] == entries[i]);
            }
            assert(all =~= entries.map_values(f));
        }
    } else {
        assert(all =~= entries.map_values(f));
    }
}

/// The names and short names of a language stand for it, whatever the case of their letters.
pub proof fn short_names_stand_for_languages(name: Seq<char>)
    ensures
        eq_no_case(name, "rust"@) ==> language_named(name) == Some(Language::Rust),
        eq_no_case(name, "typescript"@) || eq_no_case(name, "ts"@) ==> language_named(name) == Some(
            Language::TypeScript,
        ),
        eq_no_case(name, "javascript"@) || eq_no_case(name, "js"@) ==> language_named(name) == Some(
            Language::JavaScript,
        ),
        eq_no_case(name, "go"@) || eq_no_case(name, "golang"@) ==> language_named(name) == Some(Language::Go),
        eq_no_case(name, "cpp"@) || eq_no_case(name, "c++"@) || eq_no_case(name, "cxx"@) || eq_no_case(name, "c"@)
            ==> language_named(name) == Some(Language::Cpp),
{
    reveal_strlit("rust");
    reveal_strlit("typescript");
    reveal_strlit("ts");
    reveal_strlit("javascript");
    reveal_strlit("js");
    reveal_strlit("go");
    reveal_strlit("golang");
    reveal_strlit("cpp");
    reveal_strlit("c++");
    reveal_strlit("cxx");
    reveal_strlit("c");
    assert(name.len() > 0 ==> name[0] == name.first());
    assert("javascript"@[0] == 'j' && "typescript"@[0] == 't');
    assert("ts"@[0] == 't' && "js"@[0] == 'j' && "go"@[0] == 'g');
}

} // verus!
