//! How a language server is installed: what to run, where the binary comes to lie, and what is said
//! where that fails.

use crate::lsp::registry::{download_url, resolve_download_url, ArchiveType, InstallMethod, Server, ServerEntry, Source};
use crate::paths::{joined, path_join};
use crate::text::{slice_views, str_eq, views};
use vstd::prelude::*;

verus! {

/// What to run to install a server.
pub enum InstallPlan {
    /// Download a compressed binary to `temp`, unpack it to `unpacked`, and move it to `target`.
    Download { url: String, archive: ArchiveType, temp: String, unpacked: String, target: String },
    /// Run a package manager with these arguments; the binary is then at `target`.
    Run {
        /// The program that has to be there.
        needs: &'static str,
        /// The program to run.
        program: &'static str,
        args: Vec<String>,
        /// A directory to make first.
        dir: String,
        target: String,
    },
}

/// The mathematical value of an [`InstallPlan`].
pub enum Plan {
    Download { url: Seq<char>, archive: ArchiveType, temp: Seq<char>, unpacked: Seq<char>, target: Seq<char> },
    Run { needs: Seq<char>, program: Seq<char>, args: Seq<Seq<char>>, dir: Seq<char>, target: Seq<char> },
}

impl View for InstallPlan {
    type V = Plan;

    open spec fn view(&self) -> Plan {
        match *self {
            InstallPlan::Download { url, archive, temp, unpacked, target } => Plan::Download {
                url: url@,
                archive,
                temp: temp@,
                unpacked: unpacked@,
                target: target@,
            },
            InstallPlan::Run { needs, program, args, dir, target } => Plan::Run {
                needs: needs@,
                program: program@,
                args: views(args@),
                dir: dir@,
                target: target@,
            },
        }
    }
}

/// How a server is installed into a directory.
pub open spec fn install_plan(server: Server, dir: Seq<char>, platform: Seq<char>, arch: Seq<char>) -> Plan {
    match server.install_method {
        Source::GithubRelease { archive, .. } => Plan::Download {
            archive,
            url: match download_url(server, platform, arch) {
                Some(u) => u,
                None => Seq::empty(),
            },
            temp: joined(dir, "."@ + server.binary_name + ".tmp"@),
            unpacked: joined(dir, "."@ + server.binary_name),
            target: joined(dir, server.binary_name),
        },
        Source::Npm { package, extra_packages } => Plan::Run {
            needs: "node"@,
            program: "npm"@,
            args: seq!["install"@, "--prefix"@, joined(dir, "npm"@), package] + extra_packages,
            dir: joined(dir, "npm"@),
            target: joined(joined(joined(joined(dir, "npm"@), "node_modules"@), ".bin"@), server.binary_name),
        },
        Source::GoInstall { module } => Plan::Run {
            needs: "go"@,
            program: "go"@,
            args: seq!["install"@, module],
            dir: joined(dir, "go"@),
            target: joined(joined(joined(dir, "go"@), "bin"@), server.binary_name),
        },
    }
}

fn dotted(name: &str) -> (r: String)
    ensures
        r@ == "."@ + name@,
{
    let mut s = ".".to_string();
    s.append(name);
    s
}

/// Plans how to install a server into a directory, on the platform that is named.
pub fn plan_install(entry: &ServerEntry, dir: &str, platform: &str, arch: &str) -> (r: InstallPlan)
    ensures
        r@ == install_plan(entry@, dir@, platform@, arch@),
{
    match &entry.install_method {
        InstallMethod::GithubRelease { archive, .. } => {
            let url = match resolve_download_url(entry, platform, arch) {
                Some(u) => u,
                None => String::new(),
            };
            let unpacked_name = dotted(entry.binary_name);
            let mut temp_name = dotted(entry.binary_name);
            temp_name.append(".tmp");
            InstallPlan::Download {
                url,
                archive: *archive,
                temp: path_join(dir, temp_name.as_str()),
                unpacked: path_join(dir, unpacked_name.as_str()),
                target: path_join(dir, entry.binary_name),
            }
        },
        InstallMethod::Npm { package, extra_packages } => {
            let npm_dir = path_join(dir, "npm");
            let mut args = vec![
                "install".to_string(),
                "--prefix".to_string(),
                npm_dir.clone(),
                (*package).to_string(),
            ];
            let ghost start = views(args@);
            let ghost more = slice_views(extra_packages@);
            assert(start =~= seq!["install"@, "--prefix"@, npm_dir@, package@]);
            let mut i: usize = 0;
            assert(start + more.take(0) =~= start);
            while i < extra_packages.len()
                invariant
                    0 <= i <= extra_packages@.len(),
                    more == slice_views(extra_packages@),
                    views(args@) == start + more.take(i as int),
                decreases extra_packages@.len() - i,
            {
                let ghost before = views(args@);
                args.push(extra_packages[i].to_string());
                assert(views(args@) =~= before.push(more[i as int]));
                assert(start + more.take(i + 1) =~= (start + more.take(i as int)).push(more[i as int]));
                i = i + 1;
            }
            assert(more.take(i as int) =~= more);
            let modules = path_join(npm_dir.as_str(), "node_modules");
            let bin = path_join(modules.as_str(), ".bin");
            let target = path_join(bin.as_str(), entry.binary_name);
            InstallPlan::Run { needs: "node", program: "npm", args, dir: npm_dir, target }
        },
        InstallMethod::GoInstall { module } => {
            let go_dir = path_join(dir, "go");
            let args = vec!["install".to_string(), (*module).to_string()];
            assert(views(args@) =~= seq!["install"@, module@]);
            let bin = path_join(go_dir.as_str(), "bin");
            let target = path_join(bin.as_str(), entry.binary_name);
            InstallPlan::Run { needs: "go", program: "go", args, dir: go_dir, target }
        },
    }
}

/// The name by which a runtime is told of.
pub open spec fn runtime_name(needs: Seq<char>) -> Seq<char> {
    if needs == "node"@ {
        "Node.js"@
    } else {
        "Go"@
    }
}

/// What is said where the program that an installation needs is not there.
pub fn missing_runtime(entry: &ServerEntry, needs: &str) -> (r: String)
    ensures
        r@ == runtime_name(needs@) + " is required for "@ + entry.binary_name@ + " but not found in PATH.\n  "@
            + entry.install_advice@,
{
    let mut m = if str_eq(needs, "node") {
        "Node.js".to_string()
    } else {
        "Go".to_string()
    };
    m.append(" is required for ");
    m.append(entry.binary_name);
    m.append(" but not found in PATH.\n  ");
    m.append(entry.install_advice);
    m
}

/// What is said where the download or the package manager fails.
pub fn install_failed(entry: &ServerEntry, url: &str) -> (r: String)
    ensures
        r@ == match entry@.install_method {
            Source::GithubRelease { .. } => "failed to download "@ + entry.binary_name@ + " from "@ + url@ + "\n  "@
                + entry.install_advice@,
            Source::Npm { package, .. } => "npm install failed for "@ + package + ".\n  "@ + entry.install_advice@,
            Source::GoInstall { module } => "go install failed for "@ + module + ".\n  "@ + entry.install_advice@,
        },
{
    match &entry.install_method {
        InstallMethod::GithubRelease { .. } => {
            let mut m = "failed to download ".to_string();
            m.append(entry.binary_name);
            m.append(" from ");
            m.append(url);
            m.append("\n  ");
            m.append(entry.install_advice);
            m
        },
        InstallMethod::Npm { package, .. } => {
            let mut m = "npm install failed for ".to_string();
            m.append(*package);
            m.append(".\n  ");
            m.append(entry.install_advice);
            m
        },
        InstallMethod::GoInstall { module } => {
            let mut m = "go install failed for ".to_string();
            m.append(*module);
            m.append(".\n  ");
            m.append(entry.install_advice);
            m
        },
    }
}

/// What is said where a package manager ran, but the binary is not at its place.
pub fn not_installed(entry: &ServerEntry, program: &str, target: &str) -> (r: String)
    ensures
        r@ == entry.binary_name@ + " not found after "@ + program@ + " install at "@ + target@,
{
    let mut m = entry.binary_name.to_string();
    m.append(" not found after ");
    m.append(program);
    m.append(" install at ");
    m.append(target);
    m
}

} // verus!
