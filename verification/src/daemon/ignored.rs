//! Leaving out the symbols of files that the project's ignore rules name.

use crate::commands::find::{Found, SymbolMatch};
use crate::lsp::router::joined_lists;
use crate::paths::{is_absolute, joined, path_is_absolute, path_join, relative, relative_leads_back, strip_prefix, under};
use crate::sorting::seen;
use crate::text::{chars_of, starts_with, string_of, views};
use vstd::prelude::*;

verus! {

/// A matcher for ignore rules.
#[verifier::external_type_specification]
#[verifier::external_body]
pub struct ExGitignore(ignore::gitignore::Gitignore);

/// A list of ignore rules from which a matcher is built.
#[verifier::external_type_specification]
#[verifier::external_body]
pub struct ExGitignoreBuilder(ignore::gitignore::GitignoreBuilder);

/// Why no matcher can be built.
#[verifier::external_type_specification]
#[verifier::external_body]
pub struct ExIgnoreError(ignore::Error);

/// The lines that a builder was given.
pub uninterp spec fn rule_lines(b: ignore::gitignore::GitignoreBuilder) -> Seq<Seq<char>>;

/// The directory to which a builder's rules are relative.
pub uninterp spec fn rule_root(b: ignore::gitignore::GitignoreBuilder) -> Seq<char>;

/// The lines from which a matcher was built.
pub uninterp spec fn matcher_lines(m: ignore::gitignore::Gitignore) -> Seq<Seq<char>>;

/// The directory to which a matcher's rules are relative.
pub uninterp spec fn matcher_root(m: ignore::gitignore::Gitignore) -> Seq<char>;

/// Whether `GitignoreBuilder` builds a matcher from lines.
pub uninterp spec fn has_matcher(root: Seq<char>, lines: Seq<Seq<char>>) -> bool;

/// Whether `Gitignore::matched_path_or_any_parents` has a file ignored by the rules that lines give.
pub uninterp spec fn ignores(root: Seq<char>, lines: Seq<Seq<char>>, path: Seq<char>) -> bool;

/// `GitignoreBuilder::new`: no rules yet, relative to a directory.
#[verifier::external_body]
fn new_rules(root: &str) -> (r: ignore::gitignore::GitignoreBuilder)
    ensures
        rule_root(r) == root@,
        rule_lines(r) == Seq::<Seq<char>>::empty(),
{
    ignore::gitignore::GitignoreBuilder::new(root)
}

/// `GitignoreBuilder::add_line`: one more line. A line that is no rule is passed over.
#[verifier::external_body]
fn add_rule(b: &mut ignore::gitignore::GitignoreBuilder, line: &str)
    ensures
        rule_root(*final(b)) == rule_root(*old(b)),
        rule_lines(*final(b)) == rule_lines(*old(b)).push(line@),
{
    let _ = b.add_line(None, line);
}

/// `GitignoreBuilder::build`: whether there is a matcher depends on the directory and the lines
/// alone. It is one for that directory and those lines.
#[verifier::external_body]
fn build_matcher(b: &ignore::gitignore::GitignoreBuilder) -> (r: Result<ignore::gitignore::Gitignore, ignore::Error>)
    ensures
        match r {
            Ok(m) => has_matcher(rule_root(*b), rule_lines(*b)) && matcher_root(m) == rule_root(*b) && matcher_lines(m)
                == rule_lines(*b),
            Err(_) => !has_matcher(rule_root(*b), rule_lines(*b)),
        },
{
    b.build()
}

/// What is left of a path below a directory, without the slash between them, is no absolute path.
pub open spec fn lies_below(path: Seq<char>, root: Seq<char>) -> bool {
    &&& is_absolute(root)
    &&& starts_with(path, root)
    &&& {
        let rest = path.skip(root.len() as int);
        if is_absolute(rest) {
            !is_absolute(rest.drop_first())
        } else {
            true
        }
    }
}

/// `Gitignore::matched_path_or_any_parents`, for a file, and `Match::is_ignore`: whether the file or
/// a directory above it is ignored depends on the matcher's directory, its lines and the path alone.
/// The outside function panics on a path that does not lie below the matcher's directory.
#[verifier::external_body]
fn is_ignored(m: &ignore::gitignore::Gitignore, path: &str) -> (r: bool)
    requires
        lies_below(path@, matcher_root(*m)),
    ensures
        r == ignores(matcher_root(*m), matcher_lines(*m), path@),
{
    m.matched_path_or_any_parents(path, false).is_ignore()
}

/// Without the byte order marks at the start.
pub open spec fn without_marks(s: Seq<char>) -> Seq<char>
    decreases s.len(),
{
    if s.len() > 0 && s[0] == '\u{feff}' {
        without_marks(s.drop_first())
    } else {
        s
    }
}

/// The lines of an ignore file; byte order marks at its start are none of them.
pub open spec fn file_rules(lines: Seq<Seq<char>>) -> Seq<Seq<char>> {
    if lines.len() == 0 {
        lines
    } else {
        lines.update(0, without_marks(lines[0]))
    }
}

/// The lines of ignore files, one file after the other.
pub open spec fn all_rules(files: Seq<Seq<Seq<char>>>) -> Seq<Seq<char>> {
    joined_lists(Seq::new(files.len(), |i: int| file_rules(files[i])))
}

/// The lines of files.
pub open spec fn file_lines(files: Seq<Vec<String>>) -> Seq<Seq<Seq<char>>> {
    Seq::new(files.len(), |i: int| views(files[i]@))
}

/// A path relative to the project root; none where it leads out of the project.
pub open spec fn path_inside(root: Seq<char>, path: Seq<char>) -> Option<Seq<char>> {
    if is_absolute(path) {
        relative(path, root)
    } else {
        Some(path)
    }
}

/// The rules leave out a file. A path that leads out of the project is left out by none.
pub open spec fn is_left_out(root: Seq<char>, rules: Seq<Seq<char>>, path: Seq<char>) -> bool {
    match path_inside(root, path) {
        Some(inside) => has_matcher(root, rules) && ignores(root, rules, joined(root, inside)),
        None => false,
    }
}

/// The symbols whose files the rules do not leave out.
pub open spec fn not_left_out(symbols: Seq<Found>, root: Seq<char>, rules: Seq<Seq<char>>) -> Seq<Found>
    decreases symbols.len(),
{
    if symbols.len() == 0 {
        Seq::empty()
    } else {
        let rest = not_left_out(symbols.drop_last(), root, rules);
        if is_left_out(root, rules, symbols.last().path) {
            rest
        } else {
            rest.push(symbols.last())
        }
    }
}

fn drop_marks(s: &str) -> (r: String)
    ensures
        r@ == without_marks(s@),
{
    let v = chars_of(s);
    let n: usize = v.len();
    let mut i: usize = 0;
    assert(v@.skip(0) =~= v@);
    while i < n && v[i] == '\u{feff}'
        invariant
            0 <= i <= n,
            n == v@.len(),
            without_marks(v@) == without_marks(v@.skip(i as int)),
        decreases n - i,
    {
        assert(v@.skip(i as int).drop_first() =~= v@.skip(i + 1));
        i = i + 1;
    }
    assert(v@.subrange(i as int, n as int) =~= v@.skip(i as int));
    string_of(&v, i, n)
}

fn add_file(b: &mut ignore::gitignore::GitignoreBuilder, lines: &Vec<String>)
    ensures
        rule_root(*final(b)) == rule_root(*old(b)),
        rule_lines(*final(b)) == rule_lines(*old(b)) + file_rules(views(lines@)),
{
    let ghost all = file_rules(views(lines@));
    let ghost before = rule_lines(*b);
    let ghost root = rule_root(*b);
    let mut i: usize = 0;
    assert(before + all.take(0) =~= before);
    while i < lines.len()
        invariant
            0 <= i <= lines@.len(),
            all == file_rules(views(lines@)),
            all.len() == lines@.len(),
            rule_root(*b) == root,
            rule_lines(*b) == before + all.take(i as int),
        decreases lines@.len() - i,
    {
        if i == 0 {
            add_rule(b, drop_marks(lines[i].as_str()).as_str());
        } else {
            add_rule(b, lines[i].as_str());
        }
        assert((before + all.take(i as int)).push(all[i as int]) =~= before + all.take(i + 1));
        i = i + 1;
    }
    assert(all.take(i as int) =~= all);
}

/// Filters out the symbols of ignored files. The rules are those of the given files, each given by
/// its lines; where they make no matcher, all symbols are kept.
pub fn filter_src_only(symbols: Vec<SymbolMatch>, project_root: &str, ignore_files: &Vec<Vec<String>>) -> (r: Vec<
    SymbolMatch,
>)
    requires
        is_absolute(project_root@),
    ensures
        seen(r@) == not_left_out(seen(symbols@), project_root@, all_rules(file_lines(ignore_files@))),
{
    let ghost files = Seq::new(file_lines(ignore_files@).len(), |i: int| file_rules(file_lines(ignore_files@)[i]));
    let ghost rules = all_rules(file_lines(ignore_files@));
    let mut b = new_rules(project_root);
    let mut i: usize = 0;
    assert(files.take(0) =~= Seq::empty());
    while i < ignore_files.len()
        invariant
            0 <= i <= ignore_files@.len(),
            files == Seq::new(
                file_lines(ignore_files@).len(),
                |i: int| file_rules(file_lines(ignore_files@)[i]),
            ),
            rule_root(b) == project_root@,
            rule_lines(b) == joined_lists(files.take(i as int)),
        decreases ignore_files@.len() - i,
    {
        add_file(&mut b, &ignore_files[i]);
        assert(files.take(i + 1).drop_last() =~= files.take(i as int));
        assert(files.take(i + 1).last() == file_rules(views(ignore_files@[i as int]@)));
        i = i + 1;
    }
    assert(files.take(i as int) =~= files);
    let ghost all = seen(symbols@);
    let ghost root = project_root@;
    let m = match build_matcher(&b) {
        Ok(m) => m,
        Err(_) => {
            proof {
                nothing_left_out(all, root, rules);
            }
            return symbols;
        },
    };
    let mut kept: Vec<SymbolMatch> = Vec::new();
    assert(all.take(0) =~= Seq::empty());
    assert(seen(kept@) =~= Seq::empty());
    for s in it: symbols
        invariant
            it.seq() == symbols@,
            all == seen(it.seq()),
            root == project_root@,
            is_absolute(root),
            has_matcher(root, rules),
            matcher_root(m) == root,
            matcher_lines(m) == rules,
            seen(kept@) == not_left_out(all.take(it.index()), root, rules),
    {
        let ghost k = it.index();
        assert(all.take(k + 1).drop_last() =~= all.take(k));
        assert(all.take(k + 1).last() == s@);
        let inside = if path_is_absolute(s.path.as_str()) {
            strip_prefix(s.path.as_str(), project_root)
        } else {
            Some(s.path.clone())
        };
        let left_out = match inside {
            Some(p) => {
                let abs = path_join(project_root, p.as_str());
                proof {
                    if is_absolute(s.path@) {
                        relative_leads_back(s.path@, root);
                    }
                    joined_lies_below(root, p@);
                }
                is_ignored(&m, abs.as_str())
            },
            None => false,
        };
        if !left_out {
            let ghost before = seen(kept@);
            let ghost sv = s@;
            kept.push(s);
            assert(seen(kept@) =~= before.push(sv));
        }
    }
    assert(all.take(all.len() as int) =~= all);
    kept
}

/// A relative path joined to a directory lies below it.
proof fn joined_lies_below(root: Seq<char>, path: Seq<char>)
    requires
        is_absolute(root),
        !is_absolute(path),
    ensures
        lies_below(joined(root, path), root),
{
    let p = joined(root, path);
    assert(p.take(root.len() as int) =~= root);
    assert(p.subrange(0, root.len() as int) =~= root);
    let rest = p.skip(root.len() as int);
    if is_absolute(rest) {
        assert(rest.drop_first() =~= path);
    }
}

/// Where there is no matcher, no symbol is left out.
proof fn nothing_left_out(symbols: Seq<Found>, root: Seq<char>, rules: Seq<Seq<char>>)
    requires
        !has_matcher(root, rules),
    ensures
        not_left_out(symbols, root, rules) == symbols,
    decreases symbols.len(),
{
    if symbols.len() > 0 {
        nothing_left_out(symbols.drop_last(), root, rules);
        assert(symbols.drop_last().push(symbols.last()) =~= symbols);
    } else {
        assert(symbols =~= Seq::empty());
    }
}

/// The symbols whose files the rules leave out are dropped, and all others stay, in order.
pub proof fn all_other_symbols_stay(symbols: Seq<Found>, root: Seq<char>, rules: Seq<Seq<char>>)
    ensures
        not_left_out(symbols, root, rules) == symbols.filter(|f: Found| !is_left_out(root, rules, f.path)),
    decreases symbols.len(),
{
    reveal(Seq::filter);
    let p = |f: Found| !is_left_out(root, rules, f.path);
    if symbols.len() > 0 {
        all_other_symbols_stay(symbols.drop_last(), root, rules);
    } else {
        assert(not_left_out(symbols, root, rules) =~= Seq::empty());
    }
}

/// A file of the project is left out just where the rules have its path ignored, be it given relative to
/// the project root or not; a file outside it never is.
pub proof fn rules_decide_inside_the_project(root: Seq<char>, rules: Seq<Seq<char>>, path: Seq<char>)
    requires
        has_matcher(root, rules),
    ensures
        !is_absolute(path) ==> is_left_out(root, rules, path) == ignores(root, rules, joined(root, path)),
        is_absolute(path) && !under(path, root) ==> !is_left_out(root, rules, path),
        is_absolute(path) && under(path, root) ==> is_left_out(root, rules, path) == ignores(
            root,
            rules,
            joined(root, relative(path, root)->Some_0),
        ),
{
}

} // verus!
