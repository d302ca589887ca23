//! Programming languages and the files that belong to them.

use crate::paths::{extension, path_extension};
use crate::text::{list_contains, slice_views, str_eq, views};
use vstd::prelude::*;

verus! {

#[derive(Debug, Clone, Copy, PartialEq, Eq, Hash, Structural)]
pub enum Language {
    Rust,
    TypeScript,
    JavaScript,
    Go,
    Cpp,
}

/// All languages, in order of priority.
pub open spec fn all_languages() -> Seq<Language> {
    seq![Language::Rust, Language::TypeScript, Language::JavaScript, Language::Go, Language::Cpp]
}

impl Language {
    /// The name of the language.
    pub open spec fn label(self) -> Seq<char> {
        match self {
            Language::Rust => "rust"@,
            Language::TypeScript => "typescript"@,
            Language::JavaScript => "javascript"@,
            Language::Go => "go"@,
            Language::Cpp => "c++"@,
        }
    }

    /// The extensions of the language's files.
    pub open spec fn suffixes(self) -> Seq<Seq<char>> {
        match self {
            Language::Rust => seq!["rs"@],
            Language::TypeScript => seq!["ts"@, "tsx"@],
            Language::JavaScript => seq!["js"@, "jsx"@, "mjs"@, "cjs"@],
            Language::Go => seq!["go"@],
            Language::Cpp => seq!["c"@, "cpp"@, "cc"@, "cxx"@, "h"@, "hpp"@, "hxx"@],
        }
    }

    /// The files that mark the root of a project in the language.
    pub open spec fn markers(self) -> Seq<Seq<char>> {
        match self {
            Language::Rust => seq!["Cargo.toml"@],
            Language::TypeScript => seq!["tsconfig.json"@],
            Language::JavaScript => seq!["package.json"@],
            Language::Go => seq!["go.mod"@],
            Language::Cpp => seq!["CMakeLists.txt"@, "compile_commands.json"@],
        }
    }

    /// All language variants.
    pub fn all() -> (r: Vec<Language>)
        ensures
            r@ == all_languages(),
    {
        let r = vec![Language::Rust, Language::TypeScript, Language::JavaScript, Language::Go, Language::Cpp];
        assert(r@ =~= all_languages());
        r
    }

    /// Human-readable name for display.
    pub fn name(self) -> (r: &'static str)
        ensures
            r@ == self.label(),
    {
        match self {
            Language::Rust => "rust",
            Language::TypeScript => "typescript",
            Language::JavaScript => "javascript",
            Language::Go => "go",
            Language::Cpp => "c++",
        }
    }

    /// File extensions associated with this language.
    pub fn extensions(self) -> (r: &'static [&'static str])
        ensures
            slice_views(r@) == self.suffixes(),
    {
        let r: &'static [&'static str] = match self {
            Language::Rust => &["rs"],
            Language::TypeScript => &["ts", "tsx"],
            Language::JavaScript => &["js", "jsx", "mjs", "cjs"],
            Language::Go => &["go"],
            Language::Cpp => &["c", "cpp", "cc", "cxx", "h", "hpp", "hxx"],
        };
        assert(slice_views(r@) =~= self.suffixes());
        r
    }

    /// Workspace marker files that indicate this language's project root.
    pub fn workspace_markers(self) -> (r: &'static [&'static str])
        ensures
            slice_views(r@) == self.markers(),
    {
        let r: &'static [&'static str] = match self {
            Language::Rust => &["Cargo.toml"],
            Language::TypeScript => &["tsconfig.json"],
            Language::JavaScript => &["package.json"],
            Language::Go => &["go.mod"],
            Language::Cpp => &["CMakeLists.txt", "compile_commands.json"],
        };
        assert(slice_views(r@) =~= self.markers());
        r
    }
}

/// Whether the slice holds the string `s`.
pub fn slice_contains(list: &[&str], s: &str) -> (r: bool)
    ensures
        r == slice_views(list@).contains(s@),
{
    let mut i: usize = 0;
    while i < list.len()
        invariant
            0 <= i <= list@.len(),
            forall|k: int| 0 <= k < i ==> slice_views(list@)[k] != s@,
        decreases list@.len() - i,
    {
        if str_eq(list[i], s) {
            assert(slice_views(list@)[i as int] == s@);
            return true;
        }
        i = i + 1;
    }
    false
}

/// The first of the languages whose files have the extension `ext`.
pub open spec fn language_with(langs: Seq<Language>, ext: Seq<char>) -> Option<Language>
    decreases langs.len(),
{
    if langs.len() == 0 {
        None
    } else if langs[0].suffixes().contains(ext) {
        Some(langs[0])
    } else {
        language_with(langs.drop_first(), ext)
    }
}

/// The language of a file, by its extension.
pub open spec fn language_of(path: Seq<char>) -> Option<Language> {
    match extension(path) {
        Some(ext) => language_with(all_languages(), ext),
        None => None,
    }
}

/// Determines the language for a file based on its extension.
pub fn language_for_file(path: &str) -> (r: Option<Language>)
    ensures
        r == language_of(path@),
{
    match path_extension(path) {
        Some(ext) => {
            let langs = Language::all();
            let ghost all = all_languages();
            let mut i: usize = 0;
            assert(all.skip(0) =~= all);
            while i < langs.len()
                invariant
                    0 <= i <= langs@.len(),
                    langs@ == all,
                    all == all_languages(),
                    extension(path@) == Some(ext@),
                    language_with(all, ext@) == language_with(all.skip(i as int), ext@),
                decreases langs@.len() - i,
            {
                assert(all.skip(i as int)[0] == langs@[i as int]);
                assert(all.skip(i as int).drop_first() =~= all.skip(i + 1));
                if slice_contains(langs[i].extensions(), ext.as_str()) {
                    return Some(langs[i]);
                }
                i = i + 1;
            }
            None
        },
        None => None,
    }
}

// ── Detection ───────────────────────────────────────────────────────────────

/// The directories below the root in which packages are looked for.
pub open spec fn package_dirs() -> Seq<Seq<char>> {
    seq!["packages"@, "apps"@, "libs"@, "src"@]
}

/// The directories below the root in which packages are looked for.
pub fn monorepo_dirs() -> (r: Vec<&'static str>)
    ensures
        slice_views(r@) == package_dirs(),
{
    let r = vec!["packages", "apps", "libs", "src"];
    assert(slice_views(r@) =~= package_dirs());
    r
}

/// What a directory holds.
pub struct DirFacts {
    /// The names that lead to something that exists.
    pub present: Vec<String>,
    /// The names of the files in its `src` directory, where it has one that can be read.
    pub src_names: Option<Vec<String>>,
}

/// What a project holds that tells its languages.
pub struct ProjectFacts {
    /// What the root holds.
    pub root: DirFacts,
    /// The names of the files in the root, where it can be read.
    pub root_names: Vec<String>,
    /// What the directories hold in which packages are looked for.
    pub packages: Vec<DirFacts>,
}

/// Some marker of the language is there.
pub open spec fn is_marked(dir: DirFacts, lang: Language) -> bool {
    exists|i: int| 0 <= i < lang.markers().len() && views(dir.present@).contains(#[trigger] lang.markers()[i])
}

/// Some name has one of the extensions.
pub open spec fn any_with(names: Seq<Seq<char>>, exts: Seq<Seq<char>>) -> bool {
    exists|i: int| 0 <= i < names.len() && (extension(#[trigger] names[i]) matches Some(e) && exts.contains(e))
}

/// Some name in the `src` directory has one of the extensions.
pub open spec fn any_in_src(dir: DirFacts, exts: Seq<Seq<char>>) -> bool {
    dir.src_names matches Some(names) && any_with(views(names@), exts)
}

/// The project has TypeScript files: a package with a marker, or a file in the root, in its `src`
/// directory, or in that of a package.
pub open spec fn holds_typescript(facts: ProjectFacts) -> bool {
    let exts = Language::TypeScript.suffixes();
    ||| any_in_src(facts.root, exts)
    ||| any_with(views(facts.root_names@), exts)
    ||| exists|i: int|
        0 <= i < facts.packages@.len() && (is_marked(#[trigger] facts.packages@[i], Language::TypeScript) || any_in_src(
            facts.packages@[i],
            exts,
        ))
}

/// Extensions of files to compile; a header alone makes no project.
pub open spec fn c_sources() -> Seq<Seq<char>> {
    seq!["c"@, "cpp"@, "cc"@, "cxx"@]
}

/// The project has C or C++ sources in its root or in its `src` directory.
pub open spec fn holds_c(facts: ProjectFacts) -> bool {
    any_with(views(facts.root_names@), c_sources()) || any_in_src(facts.root, c_sources())
}

/// The languages of a project, in order of priority. TypeScript takes the place of JavaScript.
pub open spec fn project_languages(facts: ProjectFacts) -> Seq<Language> {
    let ts = is_marked(facts.root, Language::TypeScript) || holds_typescript(facts);
    let rust = if is_marked(facts.root, Language::Rust) {
        seq![Language::Rust]
    } else {
        Seq::empty()
    };
    let web = if ts {
        seq![Language::TypeScript]
    } else if is_marked(facts.root, Language::JavaScript) {
        seq![Language::JavaScript]
    } else {
        Seq::empty()
    };
    let go = if is_marked(facts.root, Language::Go) {
        seq![Language::Go]
    } else {
        Seq::empty()
    };
    let cpp = if is_marked(facts.root, Language::Cpp) || holds_c(facts) {
        seq![Language::Cpp]
    } else {
        Seq::empty()
    };
    rust + web + go + cpp
}

fn has_marker(dir: &DirFacts, lang: Language) -> (r: bool)
    ensures
        r == is_marked(*dir, lang),
{
    let markers = lang.workspace_markers();
    let mut i: usize = 0;
    assert(slice_views(markers@).len() == markers@.len());
    while i < markers.len()
        invariant
            0 <= i <= markers@.len(),
            slice_views(markers@) == lang.markers(),
            markers@.len() == lang.markers().len(),
            forall|k: int| 0 <= k < i ==> !views(dir.present@).contains(#[trigger] lang.markers()[k]),
        decreases markers@.len() - i,
    {
        assert(slice_views(markers@)[i as int] == markers@[i as int]@);
        if list_contains(&dir.present, markers[i]) {
            return true;
        }
        i = i + 1;
    }
    false
}

fn has_extension(names: &Vec<String>, exts: &[&str]) -> (r: bool)
    ensures
        r == any_with(views(names@), slice_views(exts@)),
{
    let ghost all = views(names@);
    let mut i: usize = 0;
    while i < names.len()
        invariant
            0 <= i <= names@.len(),
            all == views(names@),
            forall|k: int|
                0 <= k < i ==> !(extension(#[trigger] all[k]) matches Some(e) && slice_views(exts@).contains(e)),
        decreases names@.len() - i,
    {
        assert(all[i as int] == names@[i as int]@);
        if let Some(ext) = path_extension(names[i].as_str()) {
            if slice_contains(exts, ext.as_str()) {
                return true;
            }
        }
        i = i + 1;
    }
    false
}

fn src_has_extension(dir: &DirFacts, exts: &[&str]) -> (r: bool)
    ensures
        r == any_in_src(*dir, slice_views(exts@)),
{
    match &dir.src_names {
        Some(names) => has_extension(names, exts),
        None => false,
    }
}

fn has_ts_files(facts: &ProjectFacts) -> (r: bool)
    ensures
        r == holds_typescript(*facts),
{
    let exts = Language::TypeScript.extensions();
    if src_has_extension(&facts.root, exts) || has_extension(&facts.root_names, exts) {
        return true;
    }
    let mut i: usize = 0;
    while i < facts.packages.len()
        invariant
            0 <= i <= facts.packages@.len(),
            slice_views(exts@) == Language::TypeScript.suffixes(),
            forall|k: int|
                0 <= k < i ==> !(is_marked(#[trigger] facts.packages@[k], Language::TypeScript) || any_in_src(
                    facts.packages@[k],
                    Language::TypeScript.suffixes(),
                )),
        decreases facts.packages@.len() - i,
    {
        if has_marker(&facts.packages[i], Language::TypeScript) || src_has_extension(&facts.packages[i], exts) {
            assert(is_marked(facts.packages@[i as int], Language::TypeScript) || any_in_src(
                facts.packages@[i as int],
                Language::TypeScript.suffixes(),
            ));
            return true;
        }
        i = i + 1;
    }
    false
}

fn has_c_files(facts: &ProjectFacts) -> (r: bool)
    ensures
        r == holds_c(*facts),
{
    let exts = vec!["c", "cpp", "cc", "cxx"];
    assert(slice_views(exts@) =~= c_sources());
    has_extension(&facts.root_names, exts.as_slice()) || src_has_extension(&facts.root, exts.as_slice())
}

/// Detects the languages used in a project from what it holds, in order of priority.
pub fn detect_languages(facts: &ProjectFacts) -> (r: Vec<Language>)
    ensures
        r@ == project_languages(*facts),
{
    let mut languages: Vec<Language> = Vec::new();
    if has_marker(&facts.root, Language::Rust) {
        languages.push(Language::Rust);
    }
    if has_marker(&facts.root, Language::TypeScript) || has_ts_files(facts) {
        languages.push(Language::TypeScript);
    } else if has_marker(&facts.root, Language::JavaScript) {
        languages.push(Language::JavaScript);
    }
    if has_marker(&facts.root, Language::Go) {
        languages.push(Language::Go);
    }
    if has_marker(&facts.root, Language::Cpp) || has_c_files(facts) {
        languages.push(Language::Cpp);
    }
    assert(languages@ =~= project_languages(*facts));
    languages
}

/// A project is never taken for TypeScript and JavaScript at once.
pub proof fn one_web_language(facts: ProjectFacts)
    ensures
        !(project_languages(facts).contains(Language::TypeScript) && project_languages(facts).contains(
            Language::JavaScript,
        )),
        project_languages(facts).no_duplicates(),
{
}

/// The extension of a file tells its language, and each extension tells one.
pub proof fn extension_tells_the_language(ext: Seq<char>)
    ensures
        language_with(all_languages(), ext) == Some(Language::Rust) <==> ext == "rs"@,
        language_with(all_languages(), ext) == Some(Language::TypeScript) <==> ext == "ts"@ || ext == "tsx"@,
        language_with(all_languages(), ext) == Some(Language::JavaScript) <==> ext == "js"@ || ext == "jsx"@ || ext == "mjs"@ || ext == "cjs"@,
        language_with(all_languages(), ext) == Some(Language::Go) <==> ext == "go"@,
        language_with(all_languages(), ext) == Some(Language::Cpp) <==> ext == "c"@ || ext == "cpp"@ || ext == "cc"@ || ext == "cxx"@ || ext == "h"@ || ext == "hpp"@ || ext == "hxx"@,
{
    reveal_strlit("rs");
    reveal_strlit("ts");
    reveal_strlit("tsx");
    reveal_strlit("js");
    reveal_strlit("jsx");
    reveal_strlit("mjs");
    reveal_strlit("cjs");
    reveal_strlit("go");
    reveal_strlit("c");
    reveal_strlit("cpp");
    reveal_strlit("cc");
    reveal_strlit("cxx");
    reveal_strlit("h");
    reveal_strlit("hpp");
    reveal_strlit("hxx");
    assert(Language::Rust.suffixes().contains(ext) <==> ext == "rs"@) by {
        assert(Language::Rust.suffixes()[0] == "rs"@);
    }
    assert(Language::TypeScript.suffixes().contains(ext) <==> ext == "ts"@ || ext == "tsx"@) by {
        assert(Language::TypeScript.suffixes()[0] == "ts"@);
        assert(Language::TypeScript.suffixes()[1] == "tsx"@);
    }
    assert(Language::JavaScript.suffixes().contains(ext) <==> ext == "js"@ || ext == "jsx"@ || ext == "mjs"@ || ext == "cjs"@) by {
        assert(Language::JavaScript.suffixes()[0] == "js"@);
        assert(Language::JavaScript.suffixes()[1] == "jsx"@);
        assert(Language::JavaScript.suffixes()[2] == "mjs"@);
        assert(Language::JavaScript.suffixes()[3] == "cjs"@);
    }
    assert(Language::Go.suffixes().contains(ext) <==> ext == "go"@) by {
        assert(Language::Go.suffixes()[0] == "go"@);
    }
    assert(Language::Cpp.suffixes().contains(ext) <==> ext == "c"@ || ext == "cpp"@ || ext == "cc"@ || ext == "cxx"@ || ext == "h"@ || ext == "hpp"@ || ext == "hxx"@) by {
        assert(Language::Cpp.suffixes()[0] == "c"@);
        assert(Language::Cpp.suffixes()[1] == "cpp"@);
        assert(Language::Cpp.suffixes()[2] == "cc"@);
        assert(Language::Cpp.suffixes()[3] == "cxx"@);
        assert(Language::Cpp.suffixes()[4] == "h"@);
        assert(Language::Cpp.suffixes()[5] == "hpp"@);
        assert(Language::Cpp.suffixes()[6] == "hxx"@);
    }
    let all = all_languages();
    reveal_with_fuel(language_with, 6);
    // Extensions of equal length differ in some character.
    assert("rs"@[0] != "ts"@[0]);
    assert("rs"@[0] != "js"@[0]);
    assert("rs"@[0] != "go"@[0]);
    assert("rs"@[0] != "cc"@[0]);
    assert("ts"@[0] != "js"@[0]);
    assert("ts"@[0] != "go"@[0]);
    assert("ts"@[0] != "cc"@[0]);
    assert("tsx"@[0] != "jsx"@[0]);
    assert("tsx"@[0] != "mjs"@[0]);
    assert("tsx"@[0] != "cjs"@[0]);
    assert("tsx"@[0] != "cpp"@[0]);
    assert("tsx"@[0] != "cxx"@[0]);
    assert("tsx"@[0] != "hpp"@[0]);
    assert("tsx"@[0] != "hxx"@[0]);
    assert("js"@[0] != "go"@[0]);
    assert("js"@[0] != "cc"@[0]);
    assert("jsx"@[0] != "cpp"@[0]);
    assert("jsx"@[0] != "cxx"@[0]);
    assert("jsx"@[0] != "hpp"@[0]);
    assert("jsx"@[0] != "hxx"@[0]);
    assert("mjs"@[0] != "cpp"@[0]);
    assert("mjs"@[0] != "cxx"@[0]);
    assert("mjs"@[0] != "hpp"@[0]);
    assert("mjs"@[0] != "hxx"@[0]);
    assert("cjs"@[1] != "cpp"@[1]);
    assert("cjs"@[1] != "cxx"@[1]);
    assert("cjs"@[0] != "hpp"@[0]);
    assert("cjs"@[0] != "hxx"@[0]);
    assert("go"@[0] != "cc"@[0]);
    assert("rs"@.len() == 2);
    assert("ts"@.len() == 2);
    assert("tsx"@.len() == 3);
    assert("js"@.len() == 2);
    assert("jsx"@.len() == 3);
    assert("mjs"@.len() == 3);
    assert("cjs"@.len() == 3);
    assert("go"@.len() == 2);
    assert("c"@.len() == 1);
    assert("cpp"@.len() == 3);
    assert("cc"@.len() == 2);
    assert("cxx"@.len() == 3);
    assert("h"@.len() == 1);
    assert("hpp"@.len() == 3);
    assert("hxx"@.len() == 3);
}

/// A directory is marked for a language by the files that mark it, and by no others.
pub proof fn marker_tells_the_language(dir: DirFacts)
    ensures
        is_marked(dir, Language::Rust) <==> views(dir.present@).contains("Cargo.toml"@),
        is_marked(dir, Language::TypeScript) <==> views(dir.present@).contains("tsconfig.json"@),
        is_marked(dir, Language::JavaScript) <==> views(dir.present@).contains("package.json"@),
        is_marked(dir, Language::Go) <==> views(dir.present@).contains("go.mod"@),
        is_marked(dir, Language::Cpp) <==> views(dir.present@).contains("CMakeLists.txt"@) || views(dir.present@).contains("compile_commands.json"@),
{
    assert(Language::Rust.markers()[0] == "Cargo.toml"@);
    assert(Language::TypeScript.markers()[0] == "tsconfig.json"@);
    assert(Language::JavaScript.markers()[0] == "package.json"@);
    assert(Language::Go.markers()[0] == "go.mod"@);
    assert(Language::Cpp.markers()[0] == "CMakeLists.txt"@);
    assert(Language::Cpp.markers()[1] == "compile_commands.json"@);
}

/// The languages of a project are those that the root is marked for, TypeScript also where the project holds such
/// files, and C++ also where it holds sources. Where a project has TypeScript, it has no JavaScript. They come in
/// the order Rust, TypeScript or JavaScript, Go, C++.
pub proof fn languages_are_those_found(facts: ProjectFacts)
    ensures
        ({
            let langs = project_languages(facts);
            let ts = is_marked(facts.root, Language::TypeScript) || holds_typescript(facts);
            let place = |l: Language|
                match l {
                    Language::Rust => 0int,
                    Language::TypeScript => 1int,
                    Language::JavaScript => 1int,
                    Language::Go => 2int,
                    Language::Cpp => 3int,
                };
            &&& langs.contains(Language::Rust) <==> is_marked(facts.root, Language::Rust)
            &&& langs.contains(Language::TypeScript) <==> ts
            &&& langs.contains(Language::JavaScript) <==> !ts && is_marked(facts.root, Language::JavaScript)
            &&& langs.contains(Language::Go) <==> is_marked(facts.root, Language::Go)
            &&& langs.contains(Language::Cpp) <==> is_marked(facts.root, Language::Cpp) || holds_c(facts)
            &&& forall|i: int, j: int|
                0 <= i < j < langs.len() ==> place(#[trigger] langs[i]) < place(#[trigger] langs[j])
        }),
{
    let ts = is_marked(facts.root, Language::TypeScript) || holds_typescript(facts);
    let cpp = is_marked(facts.root, Language::Cpp) || holds_c(facts);
    chosen_are_listed(
        is_marked(facts.root, Language::Rust),
        ts,
        is_marked(facts.root, Language::JavaScript),
        is_marked(facts.root, Language::Go),
        cpp,
        project_languages(facts),
    );
}

proof fn chosen_are_listed(rust: bool, ts: bool, js: bool, go: bool, cpp: bool, langs: Seq<Language>)
    requires
        langs == (if rust {
            seq![Language::Rust]
        } else {
            Seq::empty()
        }) + (if ts {
            seq![Language::TypeScript]
        } else if js {
            seq![Language::JavaScript]
        } else {
            Seq::empty()
        }) + (if go {
            seq![Language::Go]
        } else {
            Seq::empty()
        }) + (if cpp {
            seq![Language::Cpp]
        } else {
            Seq::empty()
        }),
    ensures
        langs.contains(Language::Rust) <==> rust,
        langs.contains(Language::TypeScript) <==> ts,
        langs.contains(Language::JavaScript) <==> !ts && js,
        langs.contains(Language::Go) <==> go,
        langs.contains(Language::Cpp) <==> cpp,
        ({
            let place = |l: Language|
                match l {
                    Language::Rust => 0int,
                    Language::TypeScript => 1int,
                    Language::JavaScript => 1int,
                    Language::Go => 2int,
                    Language::Cpp => 3int,
                };
            forall|i: int, j: int| 0 <= i < j < langs.len() ==> place(#[trigger] langs[i]) < place(#[trigger] langs[j])
        }),
{
    let a: int = if rust {
        1
    } else {
        0
    };
    let b: int = if ts || js {
        a + 1
    } else {
        a
    };
    let c: int = if go {
        b + 1
    } else {
        b
    };
    if rust {
        assert(langs[0] is Rust);
    }
    if ts || js {
        assert(langs[a] == if ts {
            Language::TypeScript
        } else {
            Language::JavaScript
        });
    }
    if go {
        assert(langs[b] is Go);
    }
    if cpp {
        assert(langs[c] is Cpp);
    }
}

} // verus!
