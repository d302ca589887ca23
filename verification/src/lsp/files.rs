//! Which files are open in a language server.

use crate::detect::language::Language;
use crate::json::{entries_view, field, Json, JsonValue};
use crate::paths::{components, path_eq, same_path};
use crate::text::views;
use vstd::prelude::*;

verus! {

/// Some path of the list has the same components.
pub open spec fn lists_path(s: Seq<Seq<char>>, path: Seq<char>) -> bool {
    exists|i: int| 0 <= i < s.len() && same_path(#[trigger] s[i], path)
}

/// No two paths of the list have the same components.
pub open spec fn paths_distinct(s: Seq<Seq<char>>) -> bool {
    forall|i: int, j: int| 0 <= i < j < s.len() ==> !same_path(#[trigger] s[i], #[trigger] s[j])
}

/// Position of the first path of the list with the same components, or the number of all.
pub open spec fn path_index(s: Seq<Seq<char>>, path: Seq<char>) -> int
    decreases s.len(),
{
    if s.len() == 0 || same_path(s[0], path) {
        0
    } else {
        1 + path_index(s.drop_first(), path)
    }
}

/// The list without the first path that has the same components; the others stay as they are.
pub open spec fn without_path(s: Seq<Seq<char>>, path: Seq<char>) -> Seq<Seq<char>> {
    let i = path_index(s, path);
    if 0 <= i < s.len() {
        s.remove(i)
    } else {
        s
    }
}

/// A set of paths, each listed once.
pub struct PathSet {
    pub paths: Vec<String>,
}

impl View for PathSet {
    type V = Seq<Seq<char>>;

    open spec fn view(&self) -> Seq<Seq<char>> {
        views(self.paths@)
    }
}

impl PathSet {
    /// No path.
    pub fn new() -> (r: PathSet)
        ensures
            r@.len() == 0,
            paths_distinct(r@),
    {
        let r = PathSet { paths: Vec::new() };
        assert(r@ =~= Seq::empty());
        r
    }

    /// Number of paths.
    pub fn len(&self) -> (r: usize)
        ensures
            r == self@.len(),
    {
        self.paths.len()
    }

    /// Position of a path, or the number of all where it is not in the set.
    fn position(&self, path: &str) -> (r: usize)
        ensures
            r <= self@.len(),
            r == path_index(self@, path@),
            r < self@.len() ==> same_path(self@[r as int], path@),
            r == self@.len() ==> !lists_path(self@, path@),
    {
        let mut i: usize = 0;
        assert(self@.skip(0) =~= self@);
        while i < self.paths.len()
            invariant
                0 <= i <= self.paths@.len(),
                path_index(self@, path@) == i + path_index(self@.skip(i as int), path@),
                forall|k: int| 0 <= k < i ==> !same_path(#[trigger] self@[k], path@),
            decreases self.paths@.len() - i,
        {
            assert(self@[i as int] == self.paths@[i as int]@);
            assert(self@.skip(i as int)[0] == self@[i as int]);
            assert(self@.skip(i as int).drop_first() =~= self@.skip(i + 1));
            if path_eq(self.paths[i].as_str(), path) {
                return i;
            }
            i = i + 1;
        }
        i
    }

    /// Whether a path is in the set.
    pub fn contains(&self, path: &str) -> (r: bool)
        ensures
            r == lists_path(self@, path@),
    {
        let i: usize = self.position(path);
        i < self.paths.len()
    }

    /// Puts a path into the set; tells whether it was not in it.
    pub fn insert(&mut self, path: &str) -> (r: bool)
        requires
            paths_distinct(old(self)@),
        ensures
            paths_distinct(final(self)@),
            r == !lists_path(old(self)@, path@),
            final(self)@ == if r {
                old(self)@.push(path@)
            } else {
                old(self)@
            },
            lists_path(final(self)@, path@),
    {
        if self.contains(path) {
            return false;
        }
        let ghost before = self@;
        self.paths.push(path.to_string());
        assert(self@ =~= before.push(path@));
        assert(same_path(self@[before.len() as int], path@));
        assert forall|i: int, j: int| 0 <= i < j < self@.len() implies !same_path(
            #[trigger] self@[i],
            #[trigger] self@[j],
        ) by {
            assert(self@[i] == before[i]);
            if j < before.len() {
                assert(self@[j] == before[j]);
            }
        }
        true
    }

    /// Takes a path out of the set; tells whether it was in it.
    pub fn remove(&mut self, path: &str) -> (r: bool)
        requires
            paths_distinct(old(self)@),
        ensures
            paths_distinct(final(self)@),
            r == lists_path(old(self)@, path@),
            final(self)@ == without_path(old(self)@, path@),
            !lists_path(final(self)@, path@),
            forall|q: Seq<char>|
                !same_path(q, path@) ==> #[trigger] lists_path(final(self)@, q) == lists_path(old(self)@, q),
    {
        let i: usize = self.position(path);
        let ghost before = self@;
        if i == self.paths.len() {
            return false;
        }
        assert(lists_path(before, path@));
        self.paths.remove(i);
        proof {
            let after = self@;
            assert(after =~= before.remove(i as int));
            assert forall|a: int, b: int| 0 <= a < b < after.len() implies !same_path(
                #[trigger] after[a],
                #[trigger] after[b],
            ) by {
                let x = if a < i {
                    a
                } else {
                    a + 1
                };
                let y = if b < i {
                    b
                } else {
                    b + 1
                };
                assert(after[a] == before[x] && after[b] == before[y]);
            }
            if lists_path(after, path@) {
                let a = choose|a: int| 0 <= a < after.len() && same_path(#[trigger] after[a], path@);
                if a < i {
                    assert(after[a] == before[a]);
                    assert(!same_path(before[a], before[i as int]));
                } else {
                    assert(after[a] == before[a + 1]);
                    assert(!same_path(before[i as int], before[a + 1]));
                }
            }
            assert forall|q: Seq<char>| !same_path(q, path@) implies #[trigger] lists_path(after, q) == lists_path(
                before,
                q,
            ) by {
                if lists_path(before, q) {
                    let k = choose|k: int| 0 <= k < before.len() && same_path(#[trigger] before[k], q);
                    if k < i {
                        assert(after[k] == before[k]);
                    } else {
                        assert(k != i);
                        assert(after[k - 1] == before[k]);
                    }
                }
                if lists_path(after, q) {
                    let k = choose|k: int| 0 <= k < after.len() && same_path(#[trigger] after[k], q);
                    if k < i {
                        assert(before[k] == after[k]);
                    } else {
                        assert(before[k + 1] == after[k]);
                    }
                }
            }
        }
        true
    }
}

/// A path that is added to a list lists that path, and no other anew.
proof fn listed_after_push(s: Seq<Seq<char>>, path: Seq<char>, q: Seq<char>)
    requires
        !same_path(q, path),
    ensures
        lists_path(s.push(path), q) == lists_path(s, q),
{
    let after = s.push(path);
    if lists_path(s, q) {
        let k = choose|k: int| 0 <= k < s.len() && same_path(#[trigger] s[k], q);
        assert(after[k] == s[k]);
    }
    if lists_path(after, q) {
        let k = choose|k: int| 0 <= k < after.len() && same_path(#[trigger] after[k], q);
        assert(k < s.len());
        assert(s[k] == after[k]);
    }
}

/// Tracks which files are open in a language server.
///
/// A file has to be opened before any query on it; opening it twice is a fault.
pub struct FileTracker {
    pub open_files: PathSet,
    pub language: Language,
}

/// The parameters that open a document.
pub open spec fn did_open_json(uri: Seq<char>, language: Language, text: Seq<char>) -> Json {
    Json::Obj(
        seq![
            (
                "textDocument"@,
                Json::Obj(
                    seq![
                        ("uri"@, Json::Str(uri)),
                        ("languageId"@, Json::Str(language.label())),
                        ("version"@, Json::Int(0)),
                        ("text"@, Json::Str(text)),
                    ],
                ),
            ),
        ],
    )
}

/// The parameters that name a document.
pub open spec fn document_json(uri: Seq<char>) -> Json {
    Json::Obj(seq![("textDocument"@, Json::Obj(seq![("uri"@, Json::Str(uri))]))])
}

/// Builds the parameters that name a document.
pub fn document_params(uri: &str) -> (r: JsonValue)
    ensures
        r@ == document_json(uri@),
{
    let inner = vec![field("uri", JsonValue::str(uri))];
    assert(entries_view(inner@) =~= seq![("uri"@, Json::Str(uri@))]);
    let outer = vec![field("textDocument", JsonValue::object(inner))];
    assert(entries_view(outer@) =~= document_json(uri@)->Obj_0);
    JsonValue::object(outer)
}

impl FileTracker {
    /// Files are open at most once.
    pub open spec fn is_sound(self) -> bool {
        paths_distinct(self.open_files@)
    }

    /// Creates a new tracker for the given language.
    pub fn new(language: Language) -> (r: FileTracker)
        ensures
            r.is_sound(),
            r.open_files@.len() == 0,
            r.language == language,
    {
        FileTracker { open_files: PathSet::new(), language }
    }

    /// Whether a file is open.
    pub fn is_open(&self, canonical: &str) -> (r: bool)
        ensures
            r == lists_path(self.open_files@, canonical@),
    {
        self.open_files.contains(canonical)
    }

    /// Number of open files.
    pub fn open_count(&self) -> (r: usize)
        ensures
            r == self.open_files@.len(),
    {
        self.open_files.len()
    }

    /// Records that a file is to be open. Gives the parameters of the notification to send, or
    /// nothing where the file is open already.
    pub fn ensure_open(&mut self, canonical: &str, uri: &str, text: &str) -> (r: Option<JsonValue>)
        requires
            old(self).is_sound(),
        ensures
            final(self).is_sound(),
            final(self).language == old(self).language,
            lists_path(final(self).open_files@, canonical@),
            match r {
                Some(p) => !lists_path(old(self).open_files@, canonical@) && p@ == did_open_json(
                    uri@,
                    old(self).language,
                    text@,
                ) && final(self).open_files@ == old(self).open_files@.push(canonical@),
                None => lists_path(old(self).open_files@, canonical@) && final(self).open_files@ == old(
                    self,
                ).open_files@,
            },
    {
        if !self.open_files.insert(canonical) {
            return None;
        }
        let inner = vec![
            field("uri", JsonValue::str(uri)),
            field("languageId", JsonValue::str(self.language.name())),
            field("version", JsonValue::UInt(0)),
            field("text", JsonValue::str(text)),
        ];
        let outer = vec![field("textDocument", JsonValue::object(inner))];
        proof {
            let want = did_open_json(uri@, self.language, text@);
            assert(entries_view(inner@) =~= want->Obj_0[0].1->Obj_0);
            assert(entries_view(outer@) =~= want->Obj_0);
        }
        Some(JsonValue::object(outer))
    }

    /// Records that a file is to be closed. Gives the parameters of the notification to send, or
    /// nothing where the file is not open.
    pub fn close(&mut self, canonical: &str, uri: &str) -> (r: Option<JsonValue>)
        requires
            old(self).is_sound(),
        ensures
            final(self).is_sound(),
            final(self).language == old(self).language,
            final(self).open_files@ == without_path(old(self).open_files@, canonical@),
            !lists_path(final(self).open_files@, canonical@),
            forall|q: Seq<char>|
                !same_path(q, canonical@) ==> #[trigger] lists_path(final(self).open_files@, q) == lists_path(
                    old(self).open_files@,
                    q,
                ),
            match r {
                Some(p) => lists_path(old(self).open_files@, canonical@) && p@ == document_json(uri@),
                None => !lists_path(old(self).open_files@, canonical@),
            },
    {
        if self.open_files.remove(canonical) {
            Some(document_params(uri))
        } else {
            None
        }
    }

    /// Records that a file is to be opened anew with the text that it now has; `None` where it cannot
    /// be read. Gives the parameters of the notifications that close it, where it is open, and open it.
    pub fn reopen(&mut self, canonical: &str, uri: &str, text: Option<&str>) -> (r: (Option<JsonValue>, Option<JsonValue>))
        requires
            old(self).is_sound(),
        ensures
            final(self).is_sound(),
            final(self).language == old(self).language,
            final(self).open_files@ == if text.is_some() {
                without_path(old(self).open_files@, canonical@).push(canonical@)
            } else {
                without_path(old(self).open_files@, canonical@)
            },
            lists_path(final(self).open_files@, canonical@) == text.is_some(),
            forall|q: Seq<char>|
                !same_path(q, canonical@) ==> #[trigger] lists_path(final(self).open_files@, q) == lists_path(
                    old(self).open_files@,
                    q,
                ),
            match r.0 {
                Some(p) => lists_path(old(self).open_files@, canonical@) && p@ == document_json(uri@),
                None => !lists_path(old(self).open_files@, canonical@),
            },
            match r.1 {
                Some(p) => text.is_some() && p@ == did_open_json(uri@, old(self).language, text.unwrap()@),
                None => text.is_none(),
            },
    {
        let closed = self.close(canonical, uri);
        let ghost without = self.open_files@;
        let opened = match text {
            Some(t) => self.ensure_open(canonical, uri, t),
            None => None,
        };
        proof {
            assert forall|q: Seq<char>| !same_path(q, canonical@) implies #[trigger] lists_path(
                self.open_files@,
                q,
            ) == lists_path(without, q) by {
                if text.is_some() {
                    listed_after_push(without, canonical@, q);
                }
            }
        }
        (closed, opened)
    }

    /// Records that all files are to be closed. Gives the files that were open.
    pub fn close_all(&mut self) -> (r: Vec<String>)
        requires
            old(self).is_sound(),
        ensures
            final(self).is_sound(),
            final(self).language == old(self).language,
            final(self).open_files@.len() == 0,
            views(r@) == old(self).open_files@,
    {
        let mut open = PathSet::new();
        std::mem::swap(&mut self.open_files, &mut open);
        open.paths
    }
}

/// A path that is taken out of a list without repetitions is in it no more, and the other paths stay.
pub proof fn removed_path_is_gone(s: Seq<Seq<char>>, path: Seq<char>, other: Seq<char>)
    requires
        paths_distinct(s),
    ensures
        !lists_path(without_path(s, path), path),
        !same_path(other, path) ==> (lists_path(without_path(s, path), other) <==> lists_path(s, other)),
        !lists_path(s, path) ==> without_path(s, path) == s,
        lists_path(s, path) ==> without_path(s, path).len() == s.len() - 1,
{
    let r = without_path(s, path);
    first_same_path(s, path);
    let i = path_index(s, path);
    if i < s.len() {
        assert(r == s.remove(i));
        assert forall|k: int| 0 <= k < r.len() implies !same_path(#[trigger] r[k], path) by {
            let j = if k < i {
                k
            } else {
                k + 1
            };
            assert(r[k] == s[j]);
            if same_path(s[j], path) {
                if j < i {
                    assert(same_path(s[j], s[i]));
                } else {
                    assert(same_path(s[i], s[j]));
                }
            }
        }
        if !same_path(other, path) {
            if lists_path(s, other) {
                let j = choose|j: int| 0 <= j < s.len() && same_path(#[trigger] s[j], other);
                if j < i {
                    assert(r[j] == s[j]);
                } else {
                    assert(r[j - 1] == s[j]);
                }
            }
            if lists_path(r, other) {
                let k = choose|k: int| 0 <= k < r.len() && same_path(#[trigger] r[k], other);
                if k < i {
                    assert(s[k] == r[k]);
                } else {
                    assert(s[k + 1] == r[k]);
                }
            }
        }
    }
}

proof fn first_same_path(s: Seq<Seq<char>>, path: Seq<char>)
    ensures
        0 <= path_index(s, path) <= s.len(),
        path_index(s, path) < s.len() ==> same_path(s[path_index(s, path)], path),
        path_index(s, path) == s.len() <==> !lists_path(s, path),
    decreases s.len(),
{
    if s.len() > 0 && !same_path(s[0], path) {
        let rest = s.drop_first();
        first_same_path(rest, path);
        if path_index(rest, path) < rest.len() {
            assert(s[path_index(s, path)] == rest[path_index(rest, path)]);
            assert(lists_path(s, path));
        } else if lists_path(s, path) {
            let k = choose|k: int| 0 <= k < s.len() && same_path(#[trigger] s[k], path);
            assert(rest[k - 1] == s[k]);
        }
    } else if s.len() > 0 {
        assert(same_path(s[0], path));
    }
}

} // verus!
