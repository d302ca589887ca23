//! Where a project is rooted, and where its packages are.

use crate::detect::language::{all_languages, slice_contains, Language};
use crate::index::hasher::{digest, hash_file};
use crate::lsp::pool::root_views;
use crate::paths::{
    components, file_name, joined, parent, parent_is_shorter, path_depth, path_eq, path_file_name, path_join, path_parent,
    path_starts_with, same_path, under,
};
use crate::sorting::{
    in_order, is_order, rank, seen, sort, sorted_by, sorting_is_stable, sorting_permutes, Ranked,
};
use crate::text::{slice_views, views};
use vstd::prelude::*;
use vstd::utf8::encode_utf8;

verus! {

// ── The root ────────────────────────────────────────────────────────────────

/// What marks the root of a project, in order of priority.
pub fn project_markers() -> (r: Vec<&'static str>)
    ensures
        slice_views(r@) == seq![".krait"@, ".git"@, "Cargo.toml"@, "package.json"@, "go.mod"@, "CMakeLists.txt"@],
{
    let r = vec![".krait", ".git", "Cargo.toml", "package.json", "go.mod", "CMakeLists.txt"];
    assert(slice_views(r@) =~= seq![
        ".krait"@,
        ".git"@,
        "Cargo.toml"@,
        "package.json"@,
        "go.mod"@,
        "CMakeLists.txt"@,
    ]);
    r
}

/// A path and the directories above it, from the inside out.
pub open spec fn ancestors(p: Seq<char>) -> Seq<Seq<char>>
    decreases p.len(),
    via ancestors_end
{
    match parent(p) {
        Some(q) => seq![p] + ancestors(q),
        None => seq![p],
    }
}

#[via_fn]
proof fn ancestors_end(p: Seq<char>) {
    parent_is_shorter(p);
}

/// The path and the directories above it, from the inside out.
pub fn root_candidates(from: &str) -> (r: Vec<String>)
    ensures
        views(r@) == ancestors(from@),
{
    let mut out: Vec<String> = Vec::new();
    let mut current: String = from.to_string();
    let mut more = true;
    let ghost whole = ancestors(from@);
    assert(views(out@) + ancestors(current@) =~= whole);
    while more
        invariant
            whole == ancestors(from@),
            more ==> views(out@) + ancestors(current@) == whole,
            !more ==> views(out@) == whole,
        decreases (if more { current@.len() + 1 } else { 0 }),
    {
        let ghost before = views(out@);
        let ghost c = current@;
        let up = path_parent(current.as_str());
        proof {
            parent_is_shorter(c);
        }
        out.push(current);
        assert(views(out@) =~= before.push(c));
        match up {
            Some(q) => {
                assert(before.push(c) + ancestors(q@) =~= before + (seq![c] + ancestors(q@)));
                current = q;
            },
            None => {
                assert(before.push(c) =~= before + seq![c]);
                current = String::new();
                more = false;
            },
        }
    }
    out
}

/// The first of the candidates that is marked, or else `from`.
pub open spec fn first_marked(candidates: Seq<Seq<char>>, marked: Seq<bool>, from: Seq<char>) -> Seq<char>
    decreases candidates.len(),
{
    if candidates.len() == 0 {
        from
    } else if marked[0] {
        candidates[0]
    } else {
        first_marked(candidates.drop_first(), marked.drop_first(), from)
    }
}

/// Finds the project root: the innermost of the directories from `from` upwards that holds a marker.
/// `marked` tells of each of them whether it does. Without a marker the root is `from`.
pub fn detect_project_root(from: &str, marked: &Vec<bool>) -> (r: String)
    requires
        marked@.len() == ancestors(from@).len(),
    ensures
        r@ == first_marked(ancestors(from@), marked@, from@),
{
    let dirs = root_candidates(from);
    let ghost all = ancestors(from@);
    let mut i: usize = 0;
    assert(all.skip(0) =~= all);
    assert(marked@.skip(0) =~= marked@);
    assert(views(dirs@).len() == dirs@.len());
    while i < dirs.len()
        invariant
            0 <= i <= dirs@.len(),
            all == ancestors(from@),
            views(dirs@) == all,
            dirs@.len() == marked@.len(),
            first_marked(all, marked@, from@) == first_marked(all.skip(i as int), marked@.skip(i as int), from@),
        decreases dirs@.len() - i,
    {
        assert(all.skip(i as int)[0] == dirs@[i as int]@);
        assert(marked@.skip(i as int)[0] == marked@[i as int]);
        assert(all.skip(i as int).drop_first() =~= all.skip(i + 1));
        assert(marked@.skip(i as int).drop_first() =~= marked@.skip(i + 1));
        if marked[i] {
            return dirs[i].clone();
        }
        i = i + 1;
    }
    from.to_string()
}

/// Every directory from a path upwards is the path itself or holds it.
pub proof fn ancestors_get_shorter(p: Seq<char>, i: int)
    requires
        0 <= i < ancestors(p).len(),
    ensures
        ancestors(p)[0] == p,
        i > 0 ==> parent(ancestors(p)[i - 1]) == Some(ancestors(p)[i]) && ancestors(p)[i].len() < p.len(),
    decreases p.len(),
{
    parent_is_shorter(p);
    match parent(p) {
        Some(q) => {
            assert(ancestors(p)[0] == p);
            if i > 0 {
                assert(ancestors(p)[i] == ancestors(q)[i - 1]);
                ancestors_get_shorter(q, i - 1);
                if i > 1 {
                    assert(ancestors(p)[i - 1] == ancestors(q)[i - 2]);
                }
            }
        },
        None => {},
    }
}

// ── The socket ──────────────────────────────────────────────────────────────

/// Name of the socket for a project: the first 16 digits of the hash of its root's path.
pub open spec fn socket_name(root: Seq<char>) -> Seq<char> {
    "krait-"@ + digest(encode_utf8(root)).take(16) + ".sock"@
}

/// Computes the socket path for a project root, given without symbolic links where that can be had.
pub fn socket_path(canonical_root: &str, temp_dir: &str) -> (r: String)
    ensures
        r@ == joined(temp_dir@, socket_name(canonical_root@)),
{
    let hex = hash_file(canonical_root.as_bytes());
    let v = crate::text::chars_of(hex.as_str());
    let short = crate::text::string_of(&v, 0, 16);
    assert(v@.subrange(0, 16) =~= v@.take(16));
    let mut name = "krait-".to_string();
    name.append(short.as_str());
    name.append(".sock");
    path_join(temp_dir, name.as_str())
}

// ── Packages ────────────────────────────────────────────────────────────────

/// A directory that holds a marker of a language.
pub struct PackageRoot {
    pub lang: Language,
    pub dir: String,
}

impl View for PackageRoot {
    type V = (Language, Seq<char>);

    open spec fn view(&self) -> (Language, Seq<char>) {
        (self.lang, self.dir@)
    }
}

/// Number of components of a path.
pub open spec fn depth(p: Seq<char>) -> nat {
    components(p).len()
}

impl Ranked for PackageRoot {
    open spec fn before(a: (Language, Seq<char>), b: (Language, Seq<char>)) -> bool {
        depth(a.1) < depth(b.1)
    }

    fn is_before(&self, other: &PackageRoot) -> (r: bool) {
        path_depth(self.dir.as_str()) < path_depth(other.dir.as_str())
    }
}

/// The list holds the language with the same directory.
pub open spec fn lists_root(s: Seq<(Language, Seq<char>)>, c: (Language, Seq<char>)) -> bool {
    exists|i: int| 0 <= i < s.len() && (#[trigger] s[i]).0 == c.0 && same_path(s[i].1, c.1)
}

/// The list with one more root, where it does not hold it.
pub open spec fn with_root(s: Seq<(Language, Seq<char>)>, c: (Language, Seq<char>)) -> Seq<(Language, Seq<char>)> {
    if lists_root(s, c) {
        s
    } else {
        s.push(c)
    }
}

/// The list with a directory for each of the languages that the name of a file in it marks.
pub open spec fn with_marked(
    s: Seq<(Language, Seq<char>)>,
    langs: Seq<Language>,
    name: Seq<char>,
    dir: Seq<char>,
) -> Seq<(Language, Seq<char>)>
    decreases langs.len(),
{
    if langs.len() == 0 {
        s
    } else {
        let rest = with_marked(s, langs.drop_last(), name, dir);
        if langs.last().markers().contains(name) {
            with_root(rest, (langs.last(), dir))
        } else {
            rest
        }
    }
}

/// The directories that hold markers, with their languages, in order of the files.
pub open spec fn candidates(files: Seq<Seq<char>>) -> Seq<(Language, Seq<char>)>
    decreases files.len(),
{
    if files.len() == 0 {
        Seq::empty()
    } else {
        let rest = candidates(files.drop_last());
        match (file_name(files.last()), parent(files.last())) {
            (Some(name), Some(dir)) => with_marked(rest, all_languages(), name, dir),
            _ => rest,
        }
    }
}

/// A root of the same language lies above the directory.
pub open spec fn is_covered(roots: Seq<(Language, Seq<char>)>, c: (Language, Seq<char>)) -> bool {
    exists|i: int|
        0 <= i < roots.len() && (#[trigger] roots[i]).0 == c.0 && under(c.1, roots[i].1) && !same_path(c.1, roots[i].1)
}

/// The roots without those that an earlier root of the same language covers.
pub open spec fn outermost(s: Seq<(Language, Seq<char>)>) -> Seq<(Language, Seq<char>)>
    decreases s.len(),
{
    if s.len() == 0 {
        Seq::empty()
    } else {
        let rest = outermost(s.drop_last());
        if is_covered(rest, s.last()) {
            rest
        } else {
            rest.push(s.last())
        }
    }
}

/// Some package below the project root is written in TypeScript.
pub open spec fn has_sub_typescript(roots: Seq<(Language, Seq<char>)>, project_root: Seq<char>) -> bool {
    exists|i: int|
        0 <= i < roots.len() && (#[trigger] roots[i]).0 == Language::TypeScript && !same_path(roots[i].1, project_root)
}

/// The roots without JavaScript at the project root.
pub open spec fn without_root_javascript(roots: Seq<(Language, Seq<char>)>, project_root: Seq<char>) -> Seq<
    (Language, Seq<char>),
>
    decreases roots.len(),
{
    if roots.len() == 0 {
        Seq::empty()
    } else {
        let rest = without_root_javascript(roots.drop_last(), project_root);
        if roots.last().0 == Language::JavaScript && same_path(roots.last().1, project_root) {
            rest
        } else {
            rest.push(roots.last())
        }
    }
}

/// The roots of the packages, those with the fewest components first. Where packages below the
/// project root are written in TypeScript, and the project root has no configuration of its own for
/// it, the project root is no JavaScript package.
pub open spec fn package_roots(files: Seq<Seq<char>>, project_root: Seq<char>, root_configured: bool) -> Seq<
    (Language, Seq<char>),
> {
    let roots = outermost(sorted_by(candidates(files), rank::<PackageRoot>()));
    if has_sub_typescript(roots, project_root) && !root_configured {
        without_root_javascript(roots, project_root)
    } else {
        roots
    }
}

fn add_root(list: &mut Vec<PackageRoot>, lang: Language, dir: &str)
    ensures
        seen(final(list)@) == with_root(seen(old(list)@), (lang, dir@)),
{
    let ghost all = seen(list@);
    let ghost c = (lang, dir@);
    let mut i: usize = 0;
    while i < list.len()
        invariant
            0 <= i <= list@.len(),
            all == seen(list@),
            list@ == old(list)@,
            c == (lang, dir@),
            forall|k: int| 0 <= k < i ==> !((#[trigger] all[k]).0 == c.0 && same_path(all[k].1, c.1)),
        decreases list@.len() - i,
    {
        assert(all[i as int] == list@[i as int]@);
        if list[i].lang == lang && path_eq(list[i].dir.as_str(), dir) {
            assert(lists_root(all, c));
            return;
        }
        i = i + 1;
    }
    assert(!lists_root(all, c));
    list.push(PackageRoot { lang, dir: dir.to_string() });
    assert(seen(list@) =~= all.push(c));
}

fn add_marked(list: &mut Vec<PackageRoot>, name: &str, dir: &str)
    ensures
        seen(final(list)@) == with_marked(seen(old(list)@), all_languages(), name@, dir@),
{
    let langs = Language::all();
    let ghost all = all_languages();
    let ghost start = seen(list@);
    let mut i: usize = 0;
    assert(all.take(0) =~= Seq::empty());
    while i < langs.len()
        invariant
            0 <= i <= langs@.len(),
            langs@ == all,
            seen(list@) == with_marked(start, all.take(i as int), name@, dir@),
        decreases langs@.len() - i,
    {
        assert(all.take(i + 1).drop_last() =~= all.take(i as int));
        assert(all.take(i + 1).last() == langs@[i as int]);
        if slice_contains(langs[i].workspace_markers(), name) {
            add_root(list, langs[i], dir);
        }
        i = i + 1;
    }
    assert(all.take(i as int) =~= all);
}

fn collect_candidates(files: &Vec<String>) -> (r: Vec<PackageRoot>)
    ensures
        seen(r@) == candidates(views(files@)),
{
    let ghost all = views(files@);
    let mut out: Vec<PackageRoot> = Vec::new();
    let mut i: usize = 0;
    assert(all.take(0) =~= Seq::empty());
    assert(seen(out@) =~= Seq::empty());
    while i < files.len()
        invariant
            0 <= i <= files@.len(),
            all == views(files@),
            seen(out@) == candidates(all.take(i as int)),
        decreases files@.len() - i,
    {
        assert(all.take(i + 1).drop_last() =~= all.take(i as int));
        assert(all.take(i + 1).last() == files@[i as int]@);
        match (path_file_name(files[i].as_str()), path_parent(files[i].as_str())) {
            (Some(name), Some(dir)) => {
                add_marked(&mut out, name.as_str(), dir.as_str());
            },
            _ => {},
        }
        i = i + 1;
    }
    assert(all.take(i as int) =~= all);
    out
}

fn is_root_covered(roots: &Vec<PackageRoot>, c: &PackageRoot) -> (r: bool)
    ensures
        r == is_covered(seen(roots@), c@),
{
    let ghost all = seen(roots@);
    let mut i: usize = 0;
    while i < roots.len()
        invariant
            0 <= i <= roots@.len(),
            all == seen(roots@),
            forall|k: int|
                0 <= k < i ==> !((#[trigger] all[k]).0 == c@.0 && under(c@.1, all[k].1) && !same_path(c@.1, all[k].1)),
        decreases roots@.len() - i,
    {
        assert(all[i as int] == roots@[i as int]@);
        if roots[i].lang == c.lang && path_starts_with(c.dir.as_str(), roots[i].dir.as_str()) && !path_eq(
            c.dir.as_str(),
            roots[i].dir.as_str(),
        ) {
            return true;
        }
        i = i + 1;
    }
    false
}

fn drop_covered(list: Vec<PackageRoot>) -> (r: Vec<PackageRoot>)
    ensures
        seen(r@) == outermost(seen(list@)),
{
    let ghost all = seen(list@);
    let mut out: Vec<PackageRoot> = Vec::new();
    assert(all.take(0) =~= Seq::empty());
    assert(seen(out@) =~= Seq::empty());
    for c in it: list
        invariant
            it.seq() == list@,
            all == seen(it.seq()),
            seen(out@) == outermost(all.take(it.index())),
    {
        let ghost i = it.index();
        let ghost cv = c@;
        assert(all.take(i + 1).drop_last() =~= all.take(i));
        assert(all.take(i + 1).last() == cv);
        if !is_root_covered(&out, &c) {
            let ghost before = seen(out@);
            out.push(c);
            assert(seen(out@) =~= before.push(cv));
        }
    }
    assert(all.take(all.len() as int) =~= all);
    out
}

fn has_sub_tsconfigs(roots: &Vec<PackageRoot>, project_root: &str) -> (r: bool)
    ensures
        r == has_sub_typescript(seen(roots@), project_root@),
{
    let ghost all = seen(roots@);
    let mut i: usize = 0;
    while i < roots.len()
        invariant
            0 <= i <= roots@.len(),
            all == seen(roots@),
            forall|k: int|
                0 <= k < i ==> !((#[trigger] all[k]).0 == Language::TypeScript && !same_path(all[k].1, project_root@)),
        decreases roots@.len() - i,
    {
        assert(all[i as int] == roots@[i as int]@);
        if roots[i].lang == Language::TypeScript && !path_eq(roots[i].dir.as_str(), project_root) {
            return true;
        }
        i = i + 1;
    }
    false
}

fn drop_root_javascript(list: Vec<PackageRoot>, project_root: &str) -> (r: Vec<PackageRoot>)
    ensures
        seen(r@) == without_root_javascript(seen(list@), project_root@),
{
    let ghost all = seen(list@);
    let mut out: Vec<PackageRoot> = Vec::new();
    assert(all.take(0) =~= Seq::empty());
    assert(seen(out@) =~= Seq::empty());
    for c in it: list
        invariant
            it.seq() == list@,
            all == seen(it.seq()),
            seen(out@) == without_root_javascript(all.take(it.index()), project_root@),
    {
        let ghost i = it.index();
        let ghost cv = c@;
        assert(all.take(i + 1).drop_last() =~= all.take(i));
        assert(all.take(i + 1).last() == cv);
        if !(c.lang == Language::JavaScript && path_eq(c.dir.as_str(), project_root)) {
            let ghost before = seen(out@);
            out.push(c);
            assert(seen(out@) =~= before.push(cv));
        }
    }
    assert(all.take(all.len() as int) =~= all);
    out
}

/// Finds all workspace roots of a project. `files` are the files of the project; `root_configured`
/// tells whether the project root holds a `tsconfig.json` or a `jsconfig.json`.
pub fn find_package_roots(files: &Vec<String>, project_root: &str, root_configured: bool) -> (r: Vec<(Language, String)>)
    ensures
        root_views(r@) == package_roots(views(files@), project_root@, root_configured),
{
    let mut roots = drop_covered(sort(collect_candidates(files)));
    if has_sub_tsconfigs(&roots, project_root) && !root_configured {
        roots = drop_root_javascript(roots, project_root);
    }
    let ghost all = seen(roots@);
    let mut out: Vec<(Language, String)> = Vec::new();
    assert(root_views(out@) =~= all.take(0));
    for c in it: roots
        invariant
            it.seq() == roots@,
            all == seen(it.seq()),
            root_views(out@) == all.take(it.index()),
    {
        let ghost i = it.index();
        let ghost before = root_views(out@);
        let ghost cv = c@;
        out.push((c.lang, c.dir));
        assert(root_views(out@) =~= before.push(cv));
        assert(all.take(i + 1) =~= all.take(i).push(cv));
    }
    assert(all.take(all.len() as int) =~= all);
    out
}

// ── Laws ────────────────────────────────────────────────────────────────────

/// Depth puts roots in a strict weak order.
proof fn depth_order()
    ensures
        is_order(rank::<PackageRoot>()),
{
}

/// The outermost roots keep the order, and come from the list.
proof fn outermost_in_order(s: Seq<(Language, Seq<char>)>)
    requires
        in_order(s, rank::<PackageRoot>()),
    ensures
        in_order(outermost(s), rank::<PackageRoot>()),
        forall|i: int| 0 <= i < outermost(s).len() ==> s.contains(#[trigger] outermost(s)[i]),
    decreases s.len(),
{
    if s.len() > 0 {
        let lt = rank::<PackageRoot>();
        let init = s.drop_last();
        let n = s.len() - 1;
        assert forall|i: int, j: int| 0 <= i < j < init.len() implies !lt(#[trigger] init[j], #[trigger] init[i]) by {
            assert(init[i] == s[i] && init[j] == s[j]);
        }
        outermost_in_order(init);
        let f = outermost(init);
        let r = outermost(s);
        assert forall|i: int| 0 <= i < r.len() implies s.contains(#[trigger] r[i]) by {
            if i < f.len() {
                assert(init.contains(f[i]));
                let k = choose|k: int| 0 <= k < init.len() && init[k] == f[i];
                assert(s[k] == r[i]);
            } else {
                assert(s[n] == r[i]);
            }
        }
        assert forall|i: int, j: int| 0 <= i < j < r.len() implies !lt(#[trigger] r[j], #[trigger] r[i]) by {
            assert(r[i] == f[i]);
            if j < f.len() {
                assert(r[j] == f[j]);
            } else {
                assert(init.contains(f[i]));
                let k = choose|k: int| 0 <= k < init.len() && init[k] == f[i];
                assert(s[k] == f[i]);
                assert(!lt(s[n], s[k]));
            }
        }
    }
}

/// No root of the list lies below another of the same language.
pub open spec fn none_nested(s: Seq<(Language, Seq<char>)>) -> bool {
    forall|i: int, j: int|
        0 <= i < s.len() && 0 <= j < s.len() && (#[trigger] s[i]).0 == (#[trigger] s[j]).0 && under(s[j].1, s[i].1)
            ==> same_path(s[j].1, s[i].1)
}

/// Among roots in order of depth, the outermost are not nested.
proof fn outermost_not_nested(s: Seq<(Language, Seq<char>)>)
    requires
        in_order(s, rank::<PackageRoot>()),
    ensures
        none_nested(outermost(s)),
    decreases s.len(),
{
    if s.len() > 0 {
        let lt = rank::<PackageRoot>();
        let init = s.drop_last();
        let n = s.len() - 1;
        assert forall|i: int, j: int| 0 <= i < j < init.len() implies !lt(#[trigger] init[j], #[trigger] init[i]) by {
            assert(init[i] == s[i] && init[j] == s[j]);
        }
        outermost_not_nested(init);
        outermost_in_order(init);
        let f = outermost(init);
        let r = outermost(s);
        assert forall|i: int, j: int|
            0 <= i < r.len() && 0 <= j < r.len() && (#[trigger] r[i]).0 == (#[trigger] r[j]).0 && under(
                r[j].1,
                r[i].1,
            ) implies same_path(r[j].1, r[i].1) by {
            if i < f.len() && j < f.len() {
                assert(r[i] == f[i] && r[j] == f[j]);
            } else if j == f.len() && i < f.len() {
                assert(r[i] == f[i]);
                assert(!is_covered(f, s.last()));
            } else if i == f.len() && j < f.len() {
                assert(r[j] == f[j]);
                assert(init.contains(f[j]));
                let k = choose|k: int| 0 <= k < init.len() && init[k] == f[j];
                assert(s[k] == r[j]);
                assert(s[n] == r[i]);
                assert(!lt(s[n], s[k]));
                assert(components(r[i].1).is_prefix_of(components(r[j].1)));
                assert(depth(r[j].1) <= depth(r[i].1));
                assert(components(r[i].1) =~= components(r[j].1));
            }
        }
    }
}

/// Each root of the list is covered, or is one of the outermost.
proof fn outermost_covers(s: Seq<(Language, Seq<char>)>, i: int)
    requires
        0 <= i < s.len(),
    ensures
        exists|k: int|
            0 <= k < outermost(s).len() && (#[trigger] outermost(s)[k]).0 == s[i].0 && under(
                s[i].1,
                outermost(s)[k].1,
            ),
    decreases s.len(),
{
    let init = s.drop_last();
    let f = outermost(init);
    let r = outermost(s);
    if i < s.len() - 1 {
        outermost_covers(init, i);
        assert(init[i] == s[i]);
        let k = choose|k: int| 0 <= k < f.len() && (#[trigger] f[k]).0 == init[i].0 && under(init[i].1, f[k].1);
        assert(r[k] == f[k]);
    } else if is_covered(f, s.last()) {
        let k = choose|k: int|
            0 <= k < f.len() && (#[trigger] f[k]).0 == s.last().0 && under(s.last().1, f[k].1) && !same_path(
                s.last().1,
                f[k].1,
            );
        assert(r[k] == f[k]);
    } else {
        assert(r[f.len() as int] == s.last());
        assert(components(s.last().1).is_prefix_of(components(s.last().1)));
    }
}

/// Leaving JavaScript out at the project root keeps the order, and all other roots.
proof fn without_javascript_keeps(s: Seq<(Language, Seq<char>)>, root: Seq<char>)
    ensures
        in_order(s, rank::<PackageRoot>()) ==> in_order(without_root_javascript(s, root), rank::<PackageRoot>()),
        forall|i: int|
            0 <= i < without_root_javascript(s, root).len() ==> s.contains(
                #[trigger] without_root_javascript(s, root)[i],
            ),
        forall|i: int|
            0 <= i < s.len() && !((#[trigger] s[i]).0 == Language::JavaScript && same_path(s[i].1, root))
                ==> without_root_javascript(s, root).contains(s[i]),
    decreases s.len(),
{
    if s.len() > 0 {
        let lt = rank::<PackageRoot>();
        let init = s.drop_last();
        let n = s.len() - 1;
        without_javascript_keeps(init, root);
        let f = without_root_javascript(init, root);
        let r = without_root_javascript(s, root);
        assert forall|i: int| 0 <= i < r.len() implies s.contains(#[trigger] r[i]) by {
            if i < f.len() {
                assert(init.contains(f[i]));
                let k = choose|k: int| 0 <= k < init.len() && init[k] == f[i];
                assert(s[k] == r[i]);
            } else {
                assert(s[n] == r[i]);
            }
        }
        assert forall|i: int|
            0 <= i < s.len() && !((#[trigger] s[i]).0 == Language::JavaScript && same_path(s[i].1, root)) implies r.contains(
            s[i],
        ) by {
            if i < n {
                assert(init[i] == s[i]);
                assert(f.contains(init[i]));
                let k = choose|k: int| 0 <= k < f.len() && f[k] == init[i];
                assert(r[k] == s[i]);
            } else {
                assert(r[f.len() as int] == s[i]);
            }
        }
        if in_order(s, lt) {
            assert forall|i: int, j: int| 0 <= i < j < init.len() implies !lt(#[trigger] init[j], #[trigger] init[i]) by {
                assert(init[i] == s[i] && init[j] == s[j]);
            }
            assert forall|i: int, j: int| 0 <= i < j < r.len() implies !lt(#[trigger] r[j], #[trigger] r[i]) by {
                assert(r[i] == f[i]);
                if j < f.len() {
                    assert(r[j] == f[j]);
                } else {
                    assert(init.contains(f[i]));
                    let k = choose|k: int| 0 <= k < init.len() && init[k] == f[i];
                    assert(s[k] == f[i]);
                    assert(!lt(s[n], s[k]));
                }
            }
        }
    }
}

/// The roots come with the fewest components first, and none lies below another of its language.
pub proof fn roots_sorted_and_not_nested(files: Seq<Seq<char>>, project_root: Seq<char>, root_configured: bool)
    ensures
        in_order(package_roots(files, project_root, root_configured), rank::<PackageRoot>()),
        none_nested(package_roots(files, project_root, root_configured)),
{
    let lt = rank::<PackageRoot>();
    depth_order();
    sorting_is_stable(candidates(files), lt);
    let sorted = sorted_by(candidates(files), lt);
    outermost_in_order(sorted);
    outermost_not_nested(sorted);
    let roots = outermost(sorted);
    without_javascript_keeps(roots, project_root);
    let kept = without_root_javascript(roots, project_root);
    assert(none_nested(kept)) by {
        assert forall|i: int, j: int|
            0 <= i < kept.len() && 0 <= j < kept.len() && (#[trigger] kept[i]).0 == (#[trigger] kept[j]).0 && under(
                kept[j].1,
                kept[i].1,
            ) implies same_path(kept[j].1, kept[i].1) by {
            assert(roots.contains(kept[i]));
            assert(roots.contains(kept[j]));
            let a = choose|a: int| 0 <= a < roots.len() && roots[a] == kept[i];
            let b = choose|b: int| 0 <= b < roots.len() && roots[b] == kept[j];
            assert(roots[a].0 == roots[b].0);
        }
    }
}

/// Every directory that holds a marker lies under a root of its language, unless that root is
/// JavaScript at the project root.
pub proof fn roots_cover_candidates(files: Seq<Seq<char>>, project_root: Seq<char>, root_configured: bool, i: int)
    requires
        0 <= i < candidates(files).len(),
    ensures
        ({
            let c = candidates(files)[i];
            let roots = package_roots(files, project_root, root_configured);
            (c.0 == Language::JavaScript && under(c.1, project_root)) || exists|k: int|
                0 <= k < roots.len() && (#[trigger] roots[k]).0 == c.0 && under(c.1, roots[k].1)
        }),
{
    let lt = rank::<PackageRoot>();
    let all = candidates(files);
    let c = all[i];
    let sorted = sorted_by(all, lt);
    sorting_permutes(all, lt);
    assert(all.to_multiset().count(c) > 0) by {
        all.to_multiset_ensures();
        assert(all.contains(c));
    }
    sorted.to_multiset_ensures();
    assert(sorted.contains(c));
    let k = choose|k: int| 0 <= k < sorted.len() && sorted[k] == c;
    outermost_covers(sorted, k);
    let roots = outermost(sorted);
    let j = choose|j: int| 0 <= j < roots.len() && (#[trigger] roots[j]).0 == sorted[k].0 && under(sorted[k].1, roots[j].1);
    without_javascript_keeps(roots, project_root);
    let kept = package_roots(files, project_root, root_configured);
    if roots[j].0 == Language::JavaScript && same_path(roots[j].1, project_root) {
        assert(under(c.1, project_root));
    } else {
        if has_sub_typescript(roots, project_root) && !root_configured {
            assert(kept.contains(roots[j]));
            let m = choose|m: int| 0 <= m < kept.len() && kept[m] == roots[j];
            assert(kept[m].0 == c.0 && under(c.1, kept[m].1));
        } else {
            assert(kept[j].0 == c.0 && under(c.1, kept[j].1));
        }
    }
}

/// Without JavaScript at the project root, all other roots stay, in order.
pub proof fn only_root_javascript_is_left_out(roots: Seq<(Language, Seq<char>)>, project_root: Seq<char>)
    ensures
        without_root_javascript(roots, project_root) == roots.filter(|c: (Language, Seq<char>)| !(c.0 is JavaScript && same_path(c.1, project_root))),
    decreases roots.len(),
{
    reveal(Seq::filter);
    let p = |c: (Language, Seq<char>)| !(c.0 is JavaScript && same_path(c.1, project_root));
    if roots.len() > 0 {
        only_root_javascript_is_left_out(roots.drop_last(), project_root);
    } else {
        assert(without_root_javascript(roots, project_root) =~= Seq::empty());
    }
}

/// The root of a project is the innermost directory that is marked, and where none is, the place that the search
/// began at.
pub proof fn innermost_marked_is_the_root(candidates: Seq<Seq<char>>, marked: Seq<bool>, from: Seq<char>, i: int)
    requires
        candidates.len() == marked.len(),
        0 <= i <= marked.len(),
        forall|k: int| 0 <= k < i ==> !(#[trigger] marked[k]),
        i < marked.len() ==> marked[i],
    ensures
        first_marked(candidates, marked, from) == if i < marked.len() {
            candidates[i]
        } else {
            from
        },
    decreases i,
{
    if i > 0 {
        let rest = marked.drop_first();
        assert forall|k: int| 0 <= k < i - 1 implies !(#[trigger] rest[k]) by {
            assert(rest[k] == marked[k + 1]);
        }
        assert(!marked[0]);
        if i < marked.len() {
            assert(rest[i - 1] == marked[i]);
            assert(candidates.drop_first()[i - 1] == candidates[i]);
        }
        innermost_marked_is_the_root(candidates.drop_first(), rest, from, i - 1);
    }
}

/// The directories above a path go up to one that nothing holds.
pub proof fn ancestors_go_all_the_way(p: Seq<char>)
    ensures
        ancestors(p).len() > 0,
        parent(ancestors(p).last()) is None,
    decreases p.len(),
{
    parent_is_shorter(p);
    match parent(p) {
        Some(q) => {
            ancestors_go_all_the_way(q);
            assert(ancestors(p).last() == ancestors(q).last());
        },
        None => {},
    }
}

proof fn marked_are_listed(s: Seq<(Language, Seq<char>)>, langs: Seq<Language>, name: Seq<char>, dir: Seq<char>)
    ensures
        forall|c: (Language, Seq<char>)| lists_root(s, c) ==> #[trigger] lists_root(with_marked(s, langs, name, dir), c),
        forall|k: int|
            0 <= k < langs.len() && (#[trigger] langs[k]).markers().contains(name) ==> lists_root(
                with_marked(s, langs, name, dir),
                (langs[k], dir),
            ),
        forall|i: int|
            0 <= i < with_marked(s, langs, name, dir).len() ==> s.contains(
                #[trigger] with_marked(s, langs, name, dir)[i],
            ) || with_marked(s, langs, name, dir)[i].1 == dir && with_marked(s, langs, name, dir)[i].0.markers().contains(
                name,
            ),
    decreases langs.len(),
{
    if langs.len() > 0 {
        let rest = with_marked(s, langs.drop_last(), name, dir);
        let all = with_marked(s, langs, name, dir);
        marked_are_listed(s, langs.drop_last(), name, dir);
        assert forall|c: (Language, Seq<char>)| lists_root(rest, c) implies #[trigger] lists_root(all, c) by {
            let i = choose|i: int| 0 <= i < rest.len() && (#[trigger] rest[i]).0 == c.0 && same_path(rest[i].1, c.1);
            assert(all[i] == rest[i]);
        }
        assert forall|k: int| 0 <= k < langs.len() && (#[trigger] langs[k]).markers().contains(name) implies lists_root(
            all,
            (langs[k], dir),
        ) by {
            if k < langs.len() - 1 {
                assert(langs.drop_last()[k] == langs[k]);
                assert(lists_root(rest, (langs[k], dir)));
            } else if !lists_root(rest, (langs.last(), dir)) {
                assert(all[all.len() - 1] == (langs.last(), dir));
            }
        }
        assert forall|i: int| 0 <= i < all.len() implies s.contains(#[trigger] all[i]) || all[i].1 == dir
            && all[i].0.markers().contains(name) by {
            if i < rest.len() {
                assert(all[i] == rest[i]);
            }
        }
    } else {
        assert forall|i: int| 0 <= i < s.len() implies s.contains(#[trigger] s[i]) by {}
    }
}

/// Every directory that holds a file that marks a language is a candidate for a root of that language, and every
/// candidate is such a directory.
pub proof fn marked_directories_are_candidates(files: Seq<Seq<char>>)
    ensures
        forall|i: int, lang: Language|
            0 <= i < files.len() && file_name(files[i]) is Some && parent(files[i]) is Some
                && lang.markers().contains(file_name(files[i])->Some_0) ==> #[trigger] lists_root(
                candidates(files),
                (lang, parent(#[trigger] files[i])->Some_0),
            ),
        forall|k: int|
            0 <= k < candidates(files).len() ==> exists|i: int|
                0 <= i < files.len() && parent(#[trigger] files[i]) == Some((#[trigger] candidates(files)[k]).1)
                    && file_name(files[i]) is Some && candidates(files)[k].0.markers().contains(
                    file_name(files[i])->Some_0,
                ),
    decreases files.len(),
{
    if files.len() > 0 {
        let init = files.drop_last();
        let f = files.last();
        let rest = candidates(init);
        let all = candidates(files);
        marked_directories_are_candidates(init);
        assert(files[files.len() - 1] == f);
        if file_name(f) is Some && parent(f) is Some {
            marked_are_listed(rest, all_languages(), file_name(f)->Some_0, parent(f)->Some_0);
        }
        assert forall|i: int, lang: Language|
            0 <= i < files.len() && file_name(files[i]) is Some && parent(files[i]) is Some
                && lang.markers().contains(file_name(files[i])->Some_0) implies #[trigger] lists_root(
            all,
            (lang, parent(#[trigger] files[i])->Some_0),
        ) by {
            if i < files.len() - 1 {
                assert(init[i] == files[i]);
                assert(lists_root(rest, (lang, parent(init[i])->Some_0)));
            } else {
                let langs = all_languages();
                assert(langs[0] is Rust && langs[1] is TypeScript && langs[2] is JavaScript && langs[3] is Go
                    && langs[4] is Cpp);
            }
        }
        assert forall|k: int| 0 <= k < all.len() implies exists|i: int|
            0 <= i < files.len() && parent(#[trigger] files[i]) == Some((#[trigger] all[k]).1) && file_name(files[i]) is Some
                && all[k].0.markers().contains(file_name(files[i])->Some_0) by {
            if rest.contains(all[k]) {
                let j = choose|j: int| 0 <= j < rest.len() && rest[j] == all[k];
                let i = choose|i: int|
                    0 <= i < init.len() && parent(#[trigger] init[i]) == Some(rest[j].1) && file_name(init[i]) is Some
                        && rest[j].0.markers().contains(file_name(init[i])->Some_0);
                assert(files[i] == init[i]);
            } else {
                assert(parent(files[files.len() - 1]) == Some(all[k].1));
            }
        }
    }
}

} // verus!
