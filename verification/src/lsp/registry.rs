//! Which language servers there are, where they come from and where they are looked for.

use crate::detect::language::Language;
use crate::paths::{joined, path_join};
use crate::text::{find_from, find_chars, chars_of, opt_view, slice_views, str_eq, string_of, views};
use vstd::prelude::*;

verus! {

/// How to acquire a server binary.
#[derive(Debug, Clone)]
pub enum InstallMethod {
    /// Download a standalone binary from a GitHub release.
    GithubRelease {
        repo: &'static str,
        /// Asset filename template. Placeholders: `{arch}`, `{platform}`.
        asset_pattern: &'static str,
        archive: ArchiveType,
    },
    /// Install via npm. Requires `node`.
    Npm { package: &'static str, extra_packages: &'static [&'static str] },
    /// Install via `go install`. Requires `go`.
    GoInstall { module: &'static str },
}

/// Archive format for downloaded files.
#[derive(Debug, Clone, Copy, PartialEq, Eq, Structural)]
pub enum ArchiveType {
    /// Single file compressed with gzip (`.gz`).
    Gzip,
    /// Zip archive (`.zip`).
    Zip,
}

/// Full metadata for a language server.
#[derive(Debug, Clone)]
pub struct ServerEntry {
    pub language: Language,
    pub binary_name: &'static str,
    pub args: &'static [&'static str],
    pub install_method: InstallMethod,
    pub install_advice: &'static str,
}

/// The mathematical value of an [`InstallMethod`].
#[verifier::ext_equal]
pub enum Source {
    GithubRelease { repo: Seq<char>, asset_pattern: Seq<char>, archive: ArchiveType },
    Npm { package: Seq<char>, extra_packages: Seq<Seq<char>> },
    GoInstall { module: Seq<char> },
}

impl View for InstallMethod {
    type V = Source;

    open spec fn view(&self) -> Source {
        match *self {
            InstallMethod::GithubRelease { repo, asset_pattern, archive } => Source::GithubRelease {
                repo: repo@,
                asset_pattern: asset_pattern@,
                archive,
            },
            InstallMethod::Npm { package, extra_packages } => Source::Npm {
                package: package@,
                extra_packages: slice_views(extra_packages@),
            },
            InstallMethod::GoInstall { module } => Source::GoInstall { module: module@ },
        }
    }
}

/// The mathematical value of a [`ServerEntry`].
#[verifier::ext_equal]
pub struct Server {
    pub language: Language,
    pub binary_name: Seq<char>,
    pub args: Seq<Seq<char>>,
    pub install_method: Source,
    pub install_advice: Seq<char>,
}

impl View for ServerEntry {
    type V = Server;

    open spec fn view(&self) -> Server {
        Server {
            language: self.language,
            binary_name: self.binary_name@,
            args: slice_views(self.args@),
            install_method: self.install_method@,
            install_advice: self.install_advice@,
        }
    }
}

/// The mathematical values of a list of entries.
pub open spec fn servers(v: Seq<ServerEntry>) -> Seq<Server> {
    Seq::new(v.len(), |i: int| v[i]@)
}

/// The servers for a language, in order of preference.
pub open spec fn servers_for(language: Language) -> Seq<Server> {
    match language {
        Language::Rust => seq![
            Server {
                language,
                binary_name: "rust-analyzer"@,
                args: Seq::empty(),
                install_method: Source::GithubRelease {
                    repo: "rust-lang/rust-analyzer"@,
                    asset_pattern: "rust-analyzer-{arch}-{platform}.gz"@,
                    archive: ArchiveType::Gzip,
                },
                install_advice: "Install: `rustup component add rust-analyzer`"@,
            },
        ],
        Language::Go => seq![
            Server {
                language,
                binary_name: "gopls"@,
                args: seq!["serve"@],
                install_method: Source::GoInstall { module: "golang.org/x/tools/gopls@latest"@ },
                install_advice: "Install: `go install golang.org/x/tools/gopls@latest`"@,
            },
        ],
        Language::Cpp => seq![
            Server {
                language,
                binary_name: "clangd"@,
                args: Seq::empty(),
                install_method: Source::GithubRelease {
                    repo: "clangd/clangd"@,
                    asset_pattern: "clangd-{platform}-{arch}.zip"@,
                    archive: ArchiveType::Zip,
                },
                install_advice: "Install: `brew install llvm` (includes clangd) or download from https://github.com/clangd/clangd/releases"@,
            },
        ],
        _ => seq![
            Server {
                language,
                binary_name: "vtsls"@,
                args: seq!["--stdio"@],
                install_method: Source::Npm {
                    package: "@vtsls/language-server"@,
                    extra_packages: seq!["typescript"@],
                },
                install_advice: "Install: `npm install -g @vtsls/language-server typescript`"@,
            },
            Server {
                language,
                binary_name: "typescript-language-server"@,
                args: seq!["--stdio"@],
                install_method: Source::Npm {
                    package: "typescript-language-server"@,
                    extra_packages: seq!["typescript"@],
                },
                install_advice: "Install: `npm install -g typescript-language-server typescript`"@,
            },
        ],
    }
}

/// Gets all server entries for a language, in preference order.
pub fn get_entries(language: Language) -> (r: Vec<ServerEntry>)
    ensures
        servers(r@) == servers_for(language),
{
    let r: Vec<ServerEntry> = match language {
        Language::Rust => vec![
            ServerEntry {
                language,
                binary_name: "rust-analyzer",
                args: &[],
                install_method: InstallMethod::GithubRelease {
                    repo: "rust-lang/rust-analyzer",
                    asset_pattern: "rust-analyzer-{arch}-{platform}.gz",
                    archive: ArchiveType::Gzip,
                },
                install_advice: "Install: `rustup component add rust-analyzer`",
            },
        ],
        Language::Go => vec![
            ServerEntry {
                language,
                binary_name: "gopls",
                args: &["serve"],
                install_method: InstallMethod::GoInstall { module: "golang.org/x/tools/gopls@latest" },
                install_advice: "Install: `go install golang.org/x/tools/gopls@latest`",
            },
        ],
        Language::Cpp => vec![
            ServerEntry {
                language,
                binary_name: "clangd",
                args: &[],
                install_method: InstallMethod::GithubRelease {
                    repo: "clangd/clangd",
                    asset_pattern: "clangd-{platform}-{arch}.zip",
                    archive: ArchiveType::Zip,
                },
                install_advice: "Install: `brew install llvm` (includes clangd) or download from https://github.com/clangd/clangd/releases",
            },
        ],
        _ => vec![
            ServerEntry {
                language,
                binary_name: "vtsls",
                args: &["--stdio"],
                install_method: InstallMethod::Npm {
                    package: "@vtsls/language-server",
                    extra_packages: &["typescript"],
                },
                install_advice: "Install: `npm install -g @vtsls/language-server typescript`",
            },
            ServerEntry {
                language,
                binary_name: "typescript-language-server",
                args: &["--stdio"],
                install_method: InstallMethod::Npm {
                    package: "typescript-language-server",
                    extra_packages: &["typescript"],
                },
                install_advice: "Install: `npm install -g typescript-language-server typescript`",
            },
        ],
    };
    assert(servers(r@) =~~= servers_for(language));
    r
}

/// The view of an optional entry.
pub open spec fn opt_server(o: Option<ServerEntry>) -> Option<Server> {
    match o {
        Some(e) => Some(e@),
        None => None,
    }
}

/// Gets the preferred server entry for a language.
pub fn get_entry(language: Language) -> (r: Option<ServerEntry>)
    ensures
        opt_server(r) == Some(servers_for(language)[0]),
{
    let mut entries = get_entries(language);
    assert(servers(entries@).len() == entries@.len());
    assert(servers(entries@)[0] == entries@[0]@);
    Some(entries.remove(0))
}

/// The name by which releases know an operating system.
pub open spec fn platform_name(os: Seq<char>) -> Seq<char> {
    if os == "macos"@ {
        "apple-darwin"@
    } else if os == "linux"@ {
        "unknown-linux-gnu"@
    } else {
        "unknown"@
    }
}

/// The name by which releases know a processor.
pub open spec fn arch_name(arch: Seq<char>) -> Seq<char> {
    if arch == "aarch64"@ {
        "aarch64"@
    } else if arch == "x86_64"@ {
        "x86_64"@
    } else {
        "unknown"@
    }
}

/// Names the platform and the processor as releases do.
pub fn detect_platform(os: &str, arch: &str) -> (r: (&'static str, &'static str))
    ensures
        r.0@ == platform_name(os@),
        r.1@ == arch_name(arch@),
{
    let platform = if str_eq(os, "macos") {
        "apple-darwin"
    } else if str_eq(os, "linux") {
        "unknown-linux-gnu"
    } else {
        "unknown"
    };
    let arch = if str_eq(arch, "aarch64") {
        "aarch64"
    } else if str_eq(arch, "x86_64") {
        "x86_64"
    } else {
        "unknown"
    };
    (platform, arch)
}

/// `s` from `i` on, with `new` for each occurrence of `old`, from left to right.
pub open spec fn replaced_from(s: Seq<char>, old: Seq<char>, new: Seq<char>, i: int) -> Seq<char>
    decreases s.len() - i,
{
    if old.len() == 0 || i < 0 || i > s.len() {
        Seq::empty()
    } else {
        match find_from(s, old, i) {
            Some(k) => if i <= k && k + old.len() <= s.len() {
                s.subrange(i, k) + new + replaced_from(s, old, new, k + old.len())
            } else {
                Seq::empty()
            },
            None => s.skip(i),
        }
    }
}

/// Replaces each occurrence of `old` by `new`, from left to right.
pub fn str_replace(s: &str, old: &str, new: &str) -> (r: String)
    requires
        old@.len() > 0,
    ensures
        r@ == replaced_from(s@, old@, new@, 0),
{
    let v = chars_of(s);
    let p = chars_of(old);
    let n: usize = v.len();
    let mut out = String::new();
    let mut i: usize = 0;
    assert(out@ + replaced_from(s@, old@, new@, 0) =~= replaced_from(s@, old@, new@, 0));
    loop
        invariant
            0 <= i <= n,
            n == v@.len(),
            v@ == s@,
            p@ == old@,
            old@.len() > 0,
            out@ + replaced_from(s@, old@, new@, i as int) == replaced_from(s@, old@, new@, 0),
        decreases v@.len() - i,
    {
        match find_chars(&v, &p, i) {
            Some(k) => {
                let ghost before = out@;
                let piece = string_of(&v, i, k);
                out.append(piece.as_str());
                out.append(new);
                assert(out@ + replaced_from(s@, old@, new@, k + p@.len()) =~= before + replaced_from(
                    s@,
                    old@,
                    new@,
                    i as int,
                ));
                i = k + p.len();
            },
            None => {
                let ghost before = out@;
                let piece = string_of(&v, i, n);
                assert(v@.subrange(i as int, v@.len() as int) =~= s@.skip(i as int));
                out.append(piece.as_str());
                return out;
            },
        }
    }
}

/// The name of a release asset for a platform.
pub open spec fn asset_name(pattern: Seq<char>, platform: Seq<char>, arch: Seq<char>) -> Seq<char> {
    replaced_from(replaced_from(pattern, "{arch}"@, arch, 0), "{platform}"@, platform, 0)
}

/// Where a server is downloaded from, where it comes from a GitHub release.
pub open spec fn download_url(s: Server, platform: Seq<char>, arch: Seq<char>) -> Option<Seq<char>> {
    match s.install_method {
        Source::GithubRelease { repo, asset_pattern, .. } => Some(
            "https://github.com/"@ + repo + "/releases/latest/download/"@ + asset_name(asset_pattern, platform, arch),
        ),
        _ => None,
    }
}

/// Resolves the download URL for a GitHub release asset on the platform that [`detect_platform`]
/// named. `None` if the install method is not a GitHub release.
pub fn resolve_download_url(entry: &ServerEntry, platform: &str, arch: &str) -> (r: Option<String>)
    ensures
        opt_view(r) == download_url(entry@, platform@, arch@),
{
    match &entry.install_method {
        InstallMethod::GithubRelease { repo, asset_pattern, .. } => {
            proof {
                reveal_strlit("{arch}");
                reveal_strlit("{platform}");
            }
            let with_arch = str_replace(*asset_pattern, "{arch}", arch);
            let asset = str_replace(with_arch.as_str(), "{platform}", platform);
            let mut url = "https://github.com/".to_string();
            url.append(*repo);
            url.append("/releases/latest/download/");
            url.append(asset.as_str());
            Some(url)
        },
        _ => None,
    }
}

// ── Where servers are looked for ────────────────────────────────────────────

/// The directory for managed server binaries under a home directory.
pub open spec fn servers_dir_under(home: Seq<char>) -> Seq<char> {
    joined(joined(home, ".krait"@), "servers"@)
}

/// Directory for managed server binaries; without a home directory it is under `/tmp`.
pub fn servers_dir(home: Option<&str>) -> (r: String)
    ensures
        r@ == servers_dir_under(
            match home {
                Some(h) => h@,
                None => "/tmp"@,
            },
        ),
{
    let base = match home {
        Some(h) => path_join(h, ".krait"),
        None => path_join("/tmp", ".krait"),
    };
    path_join(base.as_str(), "servers")
}

/// Where a managed binary may lie, in the order of looking: in the directory of managed servers,
/// where npm puts binaries, where Go puts them, and in Go's own place.
pub open spec fn managed_places(dir: Seq<char>, gopath: Option<Seq<char>>, binary: Seq<char>) -> Seq<Seq<char>> {
    let own = seq![
        joined(dir, binary),
        joined(joined(joined(joined(dir, "npm"@), "node_modules"@), ".bin"@), binary),
        joined(joined(joined(dir, "go"@), "bin"@), binary),
    ];
    match gopath {
        Some(g) => own.push(joined(joined(g, "bin"@), binary)),
        None => own,
    }
}

/// The paths at which a managed binary may lie, in the order of looking.
pub fn managed_candidates(servers_dir: &str, gopath: Option<&str>, binary_name: &str) -> (r: Vec<String>)
    ensures
        views(r@) == managed_places(
            servers_dir@,
            match gopath {
                Some(g) => Some(g@),
                None => None,
            },
            binary_name@,
        ),
{
    let npm = path_join(servers_dir, "npm");
    let modules = path_join(npm.as_str(), "node_modules");
    let bin = path_join(modules.as_str(), ".bin");
    let go = path_join(servers_dir, "go");
    let go_bin = path_join(go.as_str(), "bin");
    let mut r = vec![
        path_join(servers_dir, binary_name),
        path_join(bin.as_str(), binary_name),
        path_join(go_bin.as_str(), binary_name),
    ];
    if let Some(g) = gopath {
        let default_bin = path_join(g, "bin");
        r.push(path_join(default_bin.as_str(), binary_name));
    }
    assert(views(r@) =~= managed_places(
        servers_dir@,
        match gopath {
            Some(g) => Some(g@),
            None => None,
        },
        binary_name@,
    ));
    r
}

/// The first of the places at which there is something.
pub open spec fn first_there(places: Seq<Seq<char>>, there: Seq<bool>) -> Option<Seq<char>>
    decreases places.len(),
{
    if places.len() == 0 || there.len() == 0 {
        None
    } else if there[0] {
        Some(places[0])
    } else {
        first_there(places.drop_first(), there.drop_first())
    }
}

/// Finds a managed binary: the first of the paths at which it may lie that is there.
pub fn find_managed(servers_dir: &str, gopath: Option<&str>, binary_name: &str, there: &Vec<bool>) -> (r: Option<String>)
    ensures
        opt_view(r) == first_there(
            managed_places(
                servers_dir@,
                match gopath {
                    Some(g) => Some(g@),
                    None => None,
                },
                binary_name@,
            ),
            there@,
        ),
{
    let places = managed_candidates(servers_dir, gopath, binary_name);
    let ghost all = views(places@);
    let mut i: usize = 0;
    assert(all.skip(0) =~= all);
    assert(there@.skip(0) =~= there@);
    while i < places.len() && i < there.len()
        invariant
            0 <= i <= places@.len(),
            i <= there@.len(),
            all == views(places@),
            all == managed_places(
                servers_dir@,
                match gopath {
                    Some(g) => Some(g@),
                    None => None,
                },
                binary_name@,
            ),
            first_there(all, there@) == first_there(all.skip(i as int), there@.skip(i as int)),
        decreases places@.len() - i,
    {
        assert(all.skip(i as int)[0] == places@[i as int]@);
        assert(there@.skip(i as int)[0] == there@[i as int]);
        assert(all.skip(i as int).drop_first() =~= all.skip(i + 1));
        assert(there@.skip(i as int).drop_first() =~= there@.skip(i + 1));
        if there[i] {
            return Some(places[i].clone());
        }
        i = i + 1;
    }
    None
}

/// Finds the server binary: what was found on the search path goes before what is managed.
pub fn find_server(in_path: Option<String>, managed: Option<String>) -> (r: Option<String>)
    ensures
        r == match in_path {
            Some(p) => Some(p),
            None => managed,
        },
{
    match in_path {
        Some(p) => Some(p),
        None => managed,
    }
}

/// Position of the first that was found, or the number of all where none was.
pub open spec fn first_found(found: Seq<Option<String>>) -> int
    decreases found.len(),
{
    if found.len() == 0 || found[0] is Some {
        0
    } else {
        1 + first_found(found.drop_first())
    }
}

/// Resolves the best available server for a language: the first entry in the order of preference
/// whose binary was found. `found` tells for each entry where its binary lies.
pub fn resolve_server(language: Language, found: &Vec<Option<String>>) -> (r: Option<(ServerEntry, String)>)
    requires
        found@.len() == servers_for(language).len(),
    ensures
        match r {
            Some((entry, path)) => {
                let i = first_found(found@);
                &&& 0 <= i < found@.len()
                &&& entry@ == servers_for(language)[i]
                &&& found@[i] == Some(path)
            },
            None => first_found(found@) == found@.len(),
        },
{
    let mut entries = get_entries(language);
    assert(servers(entries@).len() == entries@.len());
    let mut i: usize = 0;
    assert(found@.skip(0) =~= found@);
    while i < found.len()
        invariant
            0 <= i <= found@.len(),
            found@.len() == entries@.len(),
            servers(entries@) == servers_for(language),
            first_found(found@) == i + first_found(found@.skip(i as int)),
        decreases found@.len() - i,
    {
        assert(found@.skip(i as int)[0] == found@[i as int]);
        assert(found@.skip(i as int).drop_first() =~= found@.skip(i + 1));
        if let Some(path) = &found[i] {
            assert(servers(entries@)[i as int] == entries@[i as int]@);
            let p = path.clone();
            return Some((entries.remove(i), p));
        }
        i = i + 1;
    }
    None
}

// ── Laws ────────────────────────────────────────────────────────────────────

/// Every language has a server, and TypeScript and JavaScript share theirs.
pub proof fn every_language_has_a_server(language: Language)
    ensures
        servers_for(language).len() >= 1,
        servers_for(language)[0].language == language,
        servers_for(Language::TypeScript)[0].binary_name == servers_for(Language::JavaScript)[0].binary_name,
{
}

proof fn found_behind(s: Seq<char>, p: Seq<char>, i: int, j: int)
    requires
        0 <= i <= s.len(),
        0 <= j,
        p.len() > 0,
    ensures
        find_from(s, p, i + j) == match find_from(s.skip(i), p, j) {
            Some(k) => Some(i + k),
            None => None,
        },
    decreases s.len() - i - j + 1,
{
    let t = s.skip(i);
    if i + j + p.len() <= s.len() {
        assert(t.subrange(j, j + p.len()) =~= s.subrange(i + j, i + j + p.len()));
        found_behind(s, p, i, j + 1);
    }
}

proof fn replaced_behind(s: Seq<char>, old: Seq<char>, new: Seq<char>, i: int, j: int)
    requires
        0 <= i <= s.len(),
        0 <= j <= s.len() - i,
        old.len() > 0,
    ensures
        replaced_from(s, old, new, i + j) == replaced_from(s.skip(i), old, new, j),
    decreases s.len() - i - j,
{
    let t = s.skip(i);
    found_behind(s, old, i, j);
    match find_from(t, old, j) {
        Some(k) => {
            crate::text::find_is_first(t, old, j);
            replaced_behind(s, old, new, i, k + old.len());
            assert(s.subrange(i + j, i + k) =~= t.subrange(j, k));
        },
        None => {
            assert(s.skip(i + j) =~= t.skip(j));
        },
    }
}

/// Replacing takes the first occurrence out and puts the new text there, and goes on behind it. A text in which
/// nothing is to be replaced stays as it is.
pub proof fn occurrences_are_replaced(front: Seq<char>, old: Seq<char>, rest: Seq<char>, new: Seq<char>)
    requires
        old.len() > 0,
        forall|k: int| 0 <= k < front.len() ==> !#[trigger] crate::text::occurs_at(front + old + rest, old, k),
    ensures
        replaced_from(front + old + rest, old, new, 0) == front + new + replaced_from(rest, old, new, 0),
        forall|s: Seq<char>|
            (forall|k: int| !#[trigger] crate::text::occurs_at(s, old, k)) ==> #[trigger] replaced_from(s, old, new, 0) == s,
{
    let s = front + old + rest;
    let n = front.len() as int;
    let m = n + old.len();
    crate::text::find_is_first(s, old, 0);
    assert(s.subrange(n, m) =~= old);
    assert(crate::text::occurs_at(s, old, n));
    assert(find_from(s, old, 0) == Some(n));
    assert(s.skip(m) =~= rest);
    replaced_behind(s, old, new, m, 0);
    assert(s.subrange(0, n) =~= front);
    assert forall|t: Seq<char>| (forall|k: int| !#[trigger] crate::text::occurs_at(t, old, k)) implies #[trigger] replaced_from(
        t,
        old,
        new,
        0,
    ) == t by {
        crate::text::find_is_first(t, old, 0);
        assert(find_from(t, old, 0) is None);
        assert(t.skip(0) =~= t);
    }
}

/// The first place at which there is something is taken.
pub proof fn first_place_is_taken(places: Seq<Seq<char>>, there: Seq<bool>, i: int)
    requires
        places.len() == there.len(),
        0 <= i <= there.len(),
        forall|k: int| 0 <= k < i ==> !(#[trigger] there[k]),
        i < there.len() ==> there[i],
    ensures
        first_there(places, there) == if i < there.len() {
            Some(places[i])
        } else {
            None
        },
    decreases i,
{
    if i > 0 {
        let rest = there.drop_first();
        assert(!there[0]);
        assert forall|k: int| 0 <= k < i - 1 implies !(#[trigger] rest[k]) by {
            assert(rest[k] == there[k + 1]);
        }
        if i < there.len() {
            assert(rest[i - 1] == there[i]);
            assert(places.drop_first()[i - 1] == places[i]);
        }
        first_place_is_taken(places.drop_first(), rest, i - 1);
    }
}

/// The first server that was found is taken.
pub proof fn first_found_is_taken(found: Seq<Option<String>>)
    ensures
        0 <= first_found(found) <= found.len(),
        first_found(found) < found.len() ==> found[first_found(found)] is Some,
        forall|k: int| 0 <= k < first_found(found) ==> (#[trigger] found[k]) is None,
    decreases found.len(),
{
    if found.len() > 0 && found[0] is None {
        let rest = found.drop_first();
        first_found_is_taken(rest);
        let n = first_found(found);
        if n < found.len() {
            assert(rest[n - 1] == found[n]);
        }
        assert forall|k: int| 0 <= k < n implies (#[trigger] found[k]) is None by {
            if k > 0 {
                assert(rest[k - 1] == found[k]);
            }
        }
    }
}

} // verus!
