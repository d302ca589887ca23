//! Which files changed since they were indexed.

use crate::commands::fix::opt_slice;
use crate::lsp::diagnostics::DiagnosticStore;
use crate::paths::{components, extension, path_extension, relative, strip_prefix};
use crate::text::{list_contains, opt_view, views};
use vstd::prelude::*;

verus! {

/// The paths known to be dirty, that is changed since they were indexed.
pub struct DirtyFiles {
    pub paths: Vec<String>,
    /// Whether all files are taken to be dirty, because changes were missed.
    pub poisoned: bool,
}

/// The mathematical value of [`DirtyFiles`].
#[verifier::ext_equal]
pub struct Dirty {
    pub paths: Set<Seq<char>>,
    pub poisoned: bool,
}

impl View for DirtyFiles {
    type V = Dirty;

    open spec fn view(&self) -> Dirty {
        Dirty { paths: views(self.paths@).to_set(), poisoned: self.poisoned }
    }
}

impl Dirty {
    /// A file is dirty.
    pub open spec fn has(self, path: Seq<char>) -> bool {
        self.poisoned || self.paths.contains(path)
    }
}

impl DirtyFiles {
    /// Each path is listed once.
    pub open spec fn wf(self) -> bool {
        views(self.paths@).no_duplicates()
    }

    /// No file is dirty.
    pub fn new() -> (r: DirtyFiles)
        ensures
            r.wf(),
            r@ == (Dirty { paths: Set::empty(), poisoned: false }),
    {
        let r = DirtyFiles { paths: Vec::new(), poisoned: false };
        assert(r@.paths =~= Set::empty());
        r
    }

    /// Marks a relative path as dirty.
    pub fn mark_dirty(&mut self, rel_path: String)
        requires
            old(self).wf(),
        ensures
            final(self).wf(),
            final(self)@ == (Dirty { paths: old(self)@.paths.insert(rel_path@), ..old(self)@ }),
    {
        let ghost before = views(self.paths@);
        let ghost p = rel_path@;
        if !list_contains(&self.paths, rel_path.as_str()) {
            self.paths.push(rel_path);
            assert(views(self.paths@) =~= before.push(p));
            assert(views(self.paths@).to_set() =~= before.to_set().insert(p)) by {
                assert(before.push(p)[before.len() as int] == p);
                assert forall|q: Seq<char>| before.to_set().contains(q) implies before.push(p).contains(q) by {
                    let k = choose|k: int| 0 <= k < before.len() && before[k] == q;
                    assert(before.push(p)[k] == q);
                }
            }
        } else {
            assert(before.to_set() =~= before.to_set().insert(p));
        }
    }

    /// Checks if a relative path is dirty.
    pub fn is_dirty(&self, rel_path: &str) -> (r: bool)
        ensures
            r == self@.has(rel_path@),
    {
        self.poisoned || list_contains(&self.paths, rel_path)
    }

    /// Clears all dirty entries, after the files were indexed anew.
    pub fn clear(&mut self)
        ensures
            final(self).wf(),
            final(self)@ == (Dirty { paths: Set::empty(), poisoned: false }),
    {
        self.paths.clear();
        self.poisoned = false;
        assert(self@.paths =~= Set::empty());
    }

    /// Number of dirty files.
    pub fn len(&self) -> (r: usize)
        requires
            self.wf(),
        ensures
            r == self@.paths.len(),
    {
        proof {
            views(self.paths@).unique_seq_to_set();
        }
        self.paths.len()
    }

    /// Whether no file is marked as dirty.
    pub fn is_empty(&self) -> (r: bool)
        requires
            self.wf(),
        ensures
            r == (self@.paths =~= Set::empty()),
    {
        proof {
            views(self.paths@).unique_seq_to_set();
            if self.paths@.len() > 0 {
                assert(views(self.paths@).contains(views(self.paths@)[0]));
            }
        }
        self.paths.len() == 0
    }

    /// Whether all files are taken to be dirty.
    pub fn is_poisoned(&self) -> (r: bool)
        ensures
            r == self@.poisoned,
    {
        self.poisoned
    }

    /// Takes all files to be dirty.
    pub fn poison(&mut self)
        ensures
            final(self).paths == old(self).paths,
            final(self)@ == (Dirty { poisoned: true, ..old(self)@ }),
    {
        self.poisoned = true;
    }
}

/// The path of a changed file below `root`, where its extension is an indexed one. `canonical` is
/// the path without symbolic links, where it is known.
pub open spec fn changed_path(
    path: Seq<char>,
    canonical: Option<Seq<char>>,
    root: Seq<char>,
    extensions: Seq<Seq<char>>,
) -> Option<Seq<char>> {
    match extension(path) {
        Some(ext) => if !extensions.contains(ext) {
            None
        } else {
            match relative(path, root) {
                Some(rel) => Some(rel),
                None => match canonical {
                    Some(c) => relative(c, root),
                    None => None,
                },
            }
        },
        None => None,
    }
}

/// Converts an absolute path to a relative path if it has an indexed extension.
pub fn to_relative(path: &str, canonical: Option<&str>, canonical_root: &str, extensions: &Vec<String>) -> (r: Option<
    String,
>)
    ensures
        opt_view(r) == changed_path(
            path@,
            opt_slice(canonical),
            canonical_root@,
            views(extensions@),
        ),
{
    let ext = match path_extension(path) {
        Some(e) => e,
        None => {
            return None;
        },
    };
    if !list_contains(extensions, ext.as_str()) {
        return None;
    }
    if let Some(r) = strip_prefix(path, canonical_root) {
        return Some(r);
    }
    match canonical {
        Some(c) => strip_prefix(c, canonical_root),
        None => None,
    }
}

/// Takes note that a file was made, changed, renamed or removed: it is dirty, and what was diagnosed
/// in it no longer holds. Files without an indexed extension, and those outside the project, are
/// passed over.
pub fn note_change(
    dirty: &mut DirtyFiles,
    diagnostics: &mut DiagnosticStore,
    path: &str,
    canonical: Option<&str>,
    canonical_root: &str,
    extensions: &Vec<String>,
)
    requires
        old(dirty).wf(),
    ensures
        final(dirty).wf(),
        match changed_path(path@, opt_slice(canonical), canonical_root@, views(extensions@)) {
            Some(rel) => {
                &&& final(dirty)@ == (Dirty { paths: old(dirty)@.paths.insert(rel), ..old(dirty)@ })
                &&& final(diagnostics)@ == old(diagnostics)@.remove(components(path@))
            },
            None => final(dirty)@ == old(dirty)@ && final(diagnostics)@ == old(diagnostics)@,
        },
{
    if let Some(rel) = to_relative(path, canonical, canonical_root, extensions) {
        dirty.mark_dirty(rel);
        diagnostics.clear(path);
    }
}

/// A changed file is dirty until the index is built anew: marking other files does not clean it.
pub proof fn dirty_until_cleared(d: Dirty, path: Seq<char>, other: Seq<char>)
    ensures
        (Dirty { paths: d.paths.insert(path), ..d }).has(path),
        d.has(path) ==> (Dirty { paths: d.paths.insert(other), ..d }).has(path),
        (Dirty { poisoned: true, ..d }).has(path),
        !(Dirty { paths: Set::empty(), poisoned: false }).has(path),
{
}

} // verus!
